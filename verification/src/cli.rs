//! The command line: argument grammar and the request each command sends.
//!
//! Flags are recognized anywhere; everything else is positional, and an
//! unknown `--flag` is simply a positional.

use crate::machine::{Json, Member};
use vstd::prelude::*;

verus! {

/// Parsed command-line arguments.
pub struct Args {
    pub positionals: Vec<String>,
    pub request: Option<String>,
    pub delete: bool,
    pub loop_mode: bool,
    pub help: bool,
}

/// The content of [`Args`].
pub struct ArgsView {
    pub positionals: Seq<Seq<char>>,
    pub request: Option<Seq<char>>,
    pub delete: bool,
    pub loop_mode: bool,
    pub help: bool,
}

impl View for Args {
    type V = ArgsView;

    open spec fn view(&self) -> ArgsView {
        ArgsView {
            positionals: self.positionals@.map_values(|s: String| s@),
            request: match self.request {
                Some(s) => Some(s@),
                None => None,
            },
            delete: self.delete,
            loop_mode: self.loop_mode,
            help: self.help,
        }
    }
}

/// Arguments before any has been read.
pub open spec fn no_args() -> ArgsView {
    ArgsView {
        positionals: Seq::empty(),
        request: None,
        delete: false,
        loop_mode: false,
        help: false,
    }
}

/// Reading `args` from index `i` on, with `acc` read so far.
pub open spec fn parse_from(args: Seq<Seq<char>>, i: int, acc: ArgsView) -> Result<
    ArgsView,
    Seq<char>,
>
    decreases args.len() - i,
{
    if i < 0 || i >= args.len() {
        Ok(acc)
    } else if args[i] == "--request"@ {
        if i + 1 < args.len() && args[i + 1].len() > 0 {
            parse_from(args, i + 2, ArgsView { request: Some(args[i + 1]), ..acc })
        } else {
            Err("Missing value for --request"@)
        }
    } else if args[i] == "--delete"@ {
        parse_from(args, i + 1, ArgsView { delete: true, ..acc })
    } else if args[i] == "--loop"@ {
        parse_from(args, i + 1, ArgsView { loop_mode: true, ..acc })
    } else if args[i] == "--help"@ || args[i] == "-h"@ {
        parse_from(args, i + 1, ArgsView { help: true, ..acc })
    } else {
        parse_from(args, i + 1, ArgsView { positionals: acc.positionals.push(args[i]), ..acc })
    }
}

/// What `parse` answers for `args`.
pub open spec fn parse_spec(args: Seq<Seq<char>>) -> Result<ArgsView, Seq<char>> {
    parse_from(args, 0, no_args())
}

fn str_eq(a: &str, b: &str) -> (r: bool)
    ensures
        r == (a@ == b@),
{
    String::from_str(a) == String::from_str(b)
}

/// Read the command-line arguments (without the program name).
pub fn parse(arguments: &Vec<String>) -> (r: Result<Args, String>)
    ensures
        match r {
            Ok(a) => parse_spec(arguments@.map_values(|s: String| s@)) == Ok::<ArgsView, Seq<char>>(
                a@,
            ),
            Err(m) => parse_spec(arguments@.map_values(|s: String| s@)) == Err::<ArgsView, Seq<
                char,
            >>(m@),
        },
{
    let ghost views = arguments@.map_values(|s: String| s@);
    let mut args = Args {
        positionals: Vec::new(),
        request: None,
        delete: false,
        loop_mode: false,
        help: false,
    };
    proof {
        assert(args@.positionals =~= Seq::<Seq<char>>::empty());
    }
    let mut index: usize = 0;
    while index < arguments.len()
        invariant
            index <= arguments.len(),
            views == arguments@.map_values(|s: String| s@),
            parse_spec(views) == parse_from(views, index as int, args@),
        decreases arguments.len() - index,
    {
        let a = arguments[index].as_str();
        proof {
            assert(views[index as int] == a@);
        }
        if str_eq(a, "--request") {
            if index + 1 < arguments.len() && !arguments[index + 1].as_str().is_empty() {
                proof {
                    assert(views[index + 1] == arguments@[index + 1]@);
                }
                args.request = Some(arguments[index + 1].clone());
                index = index + 2;
            } else {
                proof {
                    if index + 1 < arguments.len() {
                        assert(views[index + 1] == arguments@[index + 1]@);
                    }
                }
                return Err(String::from_str("Missing value for --request"));
            }
        } else {
            if str_eq(a, "--delete") {
                args.delete = true;
            } else if str_eq(a, "--loop") {
                args.loop_mode = true;
            } else if str_eq(a, "--help") || str_eq(a, "-h") {
                args.help = true;
            } else {
                let ghost before = args@.positionals;
                args.positionals.push(arguments[index].clone());
                proof {
                    assert(args@.positionals =~= before.push(views[index as int]));
                }
            }
            index = index + 1;
        }
    }
    Ok(args)
}

/// What to do for a command.
pub enum Command {
    /// `exec --request <source>`: a literal payload, `@path`, or `-` for
    /// stdin, which the transport loads and parses.
    Exec { source: String },
    /// A machine request built from the arguments.
    Request(Json),
}

/// A member holding a string.
pub open spec fn member_str(m: Member, key: Seq<char>, value: Seq<char>) -> bool {
    &&& m.key@ == key
    &&& m.value matches Json::Str(s) && s@ == value
}

/// `j` is the request `{"op": op, "id": id?, "delete": true?}`, members in
/// that order.
pub open spec fn is_request(j: Json, op: Seq<char>, id: Option<Seq<char>>, delete: bool) -> bool {
    match j {
        Json::Object(ms) => {
            let n = 1 + (if id is Some {
                1int
            } else {
                0int
            }) + (if delete {
                1int
            } else {
                0int
            });
            &&& ms@.len() == n
            &&& member_str(ms@[0], "op"@, op)
            &&& id is Some ==> member_str(ms@[1], "id"@, id.unwrap())
            &&& delete ==> ms@[n - 1].key@ == "delete"@ && ms@[n - 1].value == Json::Bool(true)
        },
        _ => false,
    }
}

/// The machine operation a command with one id argument maps to.
pub open spec fn id_command_op(command: Seq<char>) -> Option<Seq<char>> {
    if command == "decode"@ {
        Some("decodeTime"@)
    } else if command == "validate"@ {
        Some("isTTID"@)
    } else if command == "canonicalize"@ {
        Some("canonicalize"@)
    } else if command == "uuid"@ {
        Some("isUUID"@)
    } else {
        None
    }
}

/// `build_request` answers `r` for arguments `a`.
pub open spec fn builds(a: ArgsView, r: Result<Command, String>) -> bool {
    let command = if a.positionals.len() > 0 {
        Some(a.positionals[0])
    } else {
        None
    };
    let id = if a.positionals.len() > 1 {
        Some(a.positionals[1])
    } else {
        None
    };
    if command == Some("exec"@) {
        match a.request {
            None => r matches Err(m) && m@ == "Missing --request for exec"@,
            Some(source) => r matches Ok(Command::Exec { source: s }) && s@ == source,
        }
    } else if command == Some("generate"@) {
        if a.delete && id is None {
            r matches Err(m) && m@ == "Missing id for --delete"@
        } else {
            r matches Ok(Command::Request(j)) && is_request(j, "generate"@, id, a.delete)
        }
    } else if command is Some && id_command_op(command.unwrap()) is Some {
        match id {
            None => r matches Err(m) && m@ == "Missing id for "@ + command.unwrap(),
            Some(i) => r matches Ok(Command::Request(j)) && is_request(
                j,
                id_command_op(command.unwrap()).unwrap(),
                Some(i),
                false,
            ),
        }
    } else {
        let name = match command {
            Some(c) => c,
            None => Seq::empty(),
        };
        r matches Err(m) && m@ == "Unsupported command \""@ + name + "\""@
    }
}

fn str_member(key: &str, value: &str) -> (m: Member)
    ensures
        member_str(m, key@, value@),
{
    Member { key: String::from_str(key), value: Json::Str(String::from_str(value)) }
}

/// `{"op": op, "id": id}`, or the message for a missing id.
fn with_id(op: &str, id: Option<&String>, command: &str) -> (r: Result<Command, String>)
    ensures
        match id {
            None => r matches Err(m) && m@ == "Missing id for "@ + command@,
            Some(i) => r matches Ok(Command::Request(j)) && is_request(j, op@, Some(i@), false),
        },
{
    match id {
        None => {
            let mut m = String::from_str("Missing id for ");
            m.append(command);
            Err(m)
        },
        Some(i) => {
            let mut members: Vec<Member> = Vec::new();
            members.push(str_member("op", op));
            members.push(str_member("id", i.as_str()));
            Ok(Command::Request(Json::Object(members)))
        },
    }
}

/// The request a command line sends.
pub fn build_request(args: &Args) -> (r: Result<Command, String>)
    ensures
        builds(args@, r),
{
    let ghost a = args@;
    let command: Option<&str> = if args.positionals.len() > 0 {
        Some(args.positionals[0].as_str())
    } else {
        None
    };
    let id: Option<&String> = if args.positionals.len() > 1 {
        Some(&args.positionals[1])
    } else {
        None
    };
    proof {
        if a.positionals.len() > 0 {
            assert(a.positionals[0] == args.positionals@[0]@);
        }
        if a.positionals.len() > 1 {
            assert(a.positionals[1] == args.positionals@[1]@);
        }
    }
    match command {
        Some(c) => {
            if str_eq(c, "exec") {
                match &args.request {
                    None => Err(String::from_str("Missing --request for exec")),
                    Some(source) => Ok(Command::Exec { source: source.clone() }),
                }
            } else if str_eq(c, "generate") {
                if args.delete && id.is_none() {
                    return Err(String::from_str("Missing id for --delete"));
                }
                let mut members: Vec<Member> = Vec::new();
                members.push(str_member("op", "generate"));
                match id {
                    Some(i) => {
                        members.push(str_member("id", i.as_str()));
                    },
                    None => {},
                }
                if args.delete {
                    members.push(Member { key: String::from_str("delete"), value: Json::Bool(true) });
                }
                Ok(Command::Request(Json::Object(members)))
            } else if str_eq(c, "decode") {
                with_id("decodeTime", id, "decode")
            } else if str_eq(c, "validate") {
                with_id("isTTID", id, "validate")
            } else if str_eq(c, "canonicalize") {
                with_id("canonicalize", id, "canonicalize")
            } else if str_eq(c, "uuid") {
                with_id("isUUID", id, "uuid")
            } else {
                let mut m = String::from_str("Unsupported command \"");
                m.append(c);
                m.append("\"");
                Err(m)
            }
        },
        None => {
            let mut m = String::from_str("Unsupported command \"");
            m.append("\"");
            proof {
                assert(m@ =~= "Unsupported command \""@ + Seq::<char>::empty() + "\""@);
            }
            Err(m)
        },
    }
}

/// What kind of failure reading a `--request @path` file met.
#[derive(Debug, Clone, Copy, PartialEq, Eq)]
pub enum FileErrorKind {
    NotFound,
    PermissionDenied,
    Other,
}

/// The message for a file that could not be read: `ENOENT: no such file or
/// directory, open '<path>'` and its `EACCES` sibling; any other failure keeps
/// the system's own wording, `fallback`.
pub fn errno_message(kind: FileErrorKind, path: &str, fallback: String) -> (m: String)
    ensures
        m@ == match kind {
            FileErrorKind::NotFound => "ENOENT: no such file or directory, open '"@ + path@ + "'"@,
            FileErrorKind::PermissionDenied => "EACCES: permission denied, open '"@ + path@ + "'"@,
            FileErrorKind::Other => fallback@,
        },
{
    match kind {
        FileErrorKind::NotFound => {
            let mut m = String::from_str("ENOENT: no such file or directory, open '");
            m.append(path);
            m.append("'");
            m
        },
        FileErrorKind::PermissionDenied => {
            let mut m = String::from_str("EACCES: permission denied, open '");
            m.append(path);
            m.append("'");
            m
        },
        FileErrorKind::Other => fallback,
    }
}

} // verus!
