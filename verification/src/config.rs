//! The daemon's configuration and command line.

use vstd::prelude::*;
use vstd::string::*;
use vstd::utf8::*;
use crate::key::{to_hex, hex_chars};
use crate::daemon::bytes_equal;

verus! {

broadcast use vstd::utf8::group_utf8_lib;

/// The settings read from `config.toml`.
pub struct Config {
    /// Address of the other machine, `host:port`.
    pub peer: String,
    /// Address to listen on, `host:port`.
    pub listen: String,
    /// The pre-shared key in hexadecimal.
    pub key: String,
    /// Milliseconds between clipboard polls.
    pub poll_ms: u64,
    /// The largest payload accepted or sent, in bytes.
    pub max_bytes: usize,
}

/// The listening address when the configuration names none.
pub fn default_listen() -> (s: String)
    ensures
        s@ == "0.0.0.0:47777"@,
{
    "0.0.0.0:47777".to_owned()
}

/// The polling period when the configuration names none.
pub fn default_poll_ms() -> (n: u64)
    ensures
        n == 2000,
{
    2000
}

/// The payload limit when the configuration names none: 32 MiB.
pub fn default_max_bytes() -> (n: usize)
    ensures
        n == 32 * 1024 * 1024,
{
    32 * 1024 * 1024
}

/// The text of the configuration written by `init` before the key.
pub open spec fn example_head() -> Seq<char> {
    "# Copy this file to both machines, changing only `peer`.\npeer = \"192.168.15.7:47777\"\nlisten = \"0.0.0.0:47777\"\nkey = \""@
}

/// The text of the configuration written by `init` after the key.
pub open spec fn example_tail() -> Seq<char> {
    "\"\npoll_ms = 2000\nmax_bytes = 33554432\n"@
}

/// The configuration file that `init` writes, with a fresh key.
pub fn example_config(key: &[u8; 32]) -> (s: String)
    ensures
        s@ == example_head() + hex_chars(key@) + example_tail(),
{
    let mut s = "# Copy this file to both machines, changing only `peer`.\npeer = \"192.168.15.7:47777\"\nlisten = \"0.0.0.0:47777\"\nkey = \"".to_owned();
    let hex = to_hex(key.as_slice());
    s.append(hex.as_str());
    s.append("\"\npoll_ms = 2000\nmax_bytes = 33554432\n");
    s
}

/// Whether a file mode lets the group or others read, write or execute
/// the file.
pub fn readable_by_others(mode: u32) -> (r: bool)
    ensures
        r == (mode & 0o077 != 0),
{
    mode & 0o077 != 0
}

/// What the program was asked to do.
#[derive(Debug, Clone, Copy, PartialEq, Eq, Structural)]
pub enum Command {
    /// Print a fresh key.
    Keygen,
    /// Write an example configuration.
    Init,
    /// Run the daemon.
    Run,
}

fn same_str(a: &str, b: &str) -> (r: bool)
    ensures
        r == (a@ == b@),
{
    let r = bytes_equal(a.as_bytes(), b.as_bytes());
    proof {
        assert(decode_utf8(encode_utf8(a@)) == a@);
        assert(decode_utf8(encode_utf8(b@)) == b@);
    }
    r
}

/// The text shown for an unknown command `c`.
pub open spec fn unknown_command_message(c: Seq<char>) -> Seq<char> {
    "unknown command: "@ + c + "\nusage: crisclip [run|init|keygen]"@
}

/// Reads the first argument: `keygen`, `init`, `run` or nothing (which
/// means `run`); anything else is refused with the text to show.
pub fn parse_command(arg: Option<&str>) -> (res: Result<Command, String>)
    ensures
        match arg {
            None => res == Ok::<Command, String>(Command::Run),
            Some(a) => if a@ == "keygen"@ {
                res == Ok::<Command, String>(Command::Keygen)
            } else if a@ == "init"@ {
                res == Ok::<Command, String>(Command::Init)
            } else if a@ == "run"@ {
                res == Ok::<Command, String>(Command::Run)
            } else {
                res matches Err(m) && m@ == unknown_command_message(a@)
            },
        },
{
    match arg {
        None => Ok(Command::Run),
        Some(a) => {
            if same_str(a, "keygen") {
                Ok(Command::Keygen)
            } else if same_str(a, "init") {
                Ok(Command::Init)
            } else if same_str(a, "run") {
                Ok(Command::Run)
            } else {
                let mut m = "unknown command: ".to_owned();
                m.append(a);
                m.append("\nusage: crisclip [run|init|keygen]");
                Err(m)
            }
        },
    }
}

/// `base` extended by the relative path `part`, as a path is: a `/` goes
/// between them unless `base` is empty or already ends with one.
pub open spec fn path_join(base: Seq<char>, part: Seq<char>) -> Seq<char> {
    if base.len() == 0 || base.last() == '/' {
        base + part
    } else {
        base + seq!['/'] + part
    }
}

/// Where the configuration file is: the path named explicitly (by
/// `CRISCLIP_CONFIG`), else `crisclip/config.toml` under the configuration
/// directory, which is `XDG_CONFIG_HOME` or else `.config` under `HOME`
/// (under the empty path where `HOME` is unset).
pub open spec fn config_location_spec(
    explicit: Option<Seq<char>>,
    xdg: Option<Seq<char>>,
    home: Option<Seq<char>>,
) -> Seq<char> {
    match explicit {
        Some(p) => p,
        None => {
            let base = match xdg {
                Some(x) => x,
                None => path_join(
                    match home {
                        Some(h) => h,
                        None => Seq::empty(),
                    },
                    ".config"@,
                ),
            };
            path_join(path_join(base, "crisclip"@), "config.toml"@)
        },
    }
}

fn join_path(base: String, part: &str) -> (r: String)
    ensures
        r@ == path_join(base@, part@),
{
    let n = base.as_str().unicode_len();
    let needs_separator = n > 0 && base.as_str().get_char(n - 1) != '/';
    let mut r = base;
    if needs_separator {
        r.append("/");
        proof {
            reveal_strlit("/");
        }
    }
    r.append(part);
    r
}

/// The order in which the settings decide: a path named explicitly wins
/// outright, whatever the other two hold; otherwise `XDG_CONFIG_HOME`,
/// where set, decides and `HOME` plays no part; only where neither is set
/// does `HOME` decide. The file is always `config.toml` in a `crisclip`
/// directory unless named explicitly.
pub proof fn lemma_config_precedence(
    path: Seq<char>,
    dir: Seq<char>,
    xdg: Option<Seq<char>>,
    home: Option<Seq<char>>,
    other_home: Option<Seq<char>>,
)
    ensures
        config_location_spec(Some(path), xdg, home) == path,
        config_location_spec(None, Some(dir), home) == config_location_spec(None, Some(dir), other_home),
        config_location_spec(None, Some(dir), home) == path_join(path_join(dir, "crisclip"@), "config.toml"@),
        config_location_spec(None, None, home) == config_location_spec(
            None,
            Some(path_join(match home { Some(h) => h, None => Seq::empty() }, ".config"@)),
            other_home,
        ),
{
}

/// Where the configuration file is, from the values of `CRISCLIP_CONFIG`,
/// `XDG_CONFIG_HOME` and `HOME` (each `None` where it is unset).
pub fn config_location(explicit: Option<String>, xdg: Option<String>, home: Option<String>) -> (p: String)
    ensures
        explicit matches Some(e) ==> p@ == e@,
        p@ == config_location_spec(
            match explicit { Some(e) => Some(e@), None => None },
            match xdg { Some(x) => Some(x@), None => None },
            match home { Some(h) => Some(h@), None => None },
        ),
{
    if let Some(path) = explicit {
        return path;
    }
    let base = match xdg {
        Some(x) => x,
        None => {
            let h = match home {
                Some(h) => h,
                None => String::new(),
            };
            join_path(h, ".config")
        },
    };
    join_path(join_path(base, "crisclip"), "config.toml")
}

} // verus!
