//! The programs that hand an address or a file to the operating system.

use vstd::prelude::*;

use crate::text::split_on;

verus! {

/// The operating system the client runs on, as far as the commands differ.
#[derive(Clone, Copy, PartialEq, Eq, Structural, Debug)]
pub enum Platform {
    MacOs,
    Windows,
    Other,
}

/// A program to start, with its arguments.
pub struct SystemCommand {
    pub program: String,
    pub args: Vec<String>,
}

/// The program and arguments, as text.
pub open spec fn command_view(c: SystemCommand) -> (Seq<char>, Seq<Seq<char>>) {
    (c.program@, c.args@.map_values(|a: String| a@))
}

/// The command that opens an address or file with the system's default
/// application.
pub open spec fn open_command_of(platform: Platform, target: Seq<char>) -> (Seq<char>, Seq<Seq<char>>) {
    match platform {
        Platform::MacOs => ("open"@, seq![target]),
        Platform::Windows => ("rundll32.exe"@, seq!["url.dll,FileProtocolHandler"@, target]),
        Platform::Other => ("xdg-open"@, seq![target]),
    }
}

/// The command that opens an address or file with the system's default
/// application.
pub fn open_command(platform: Platform, target: &str) -> (res: SystemCommand)
    ensures
        command_view(res) == open_command_of(platform, target@),
{
    let mut args: Vec<String> = Vec::new();
    let program = match platform {
        Platform::MacOs => "open".to_owned(),
        Platform::Windows => {
            args.push("url.dll,FileProtocolHandler".to_owned());
            "rundll32.exe".to_owned()
        },
        Platform::Other => "xdg-open".to_owned(),
    };
    args.push(target.to_owned());
    let res = SystemCommand { program, args };
    assert(command_view(res).1 =~= open_command_of(platform, target@).1);
    res
}

/// The command that shows a saved file in the file manager: selected on
/// macOS and Windows, elsewhere by opening its folder (`parent`, or the path
/// itself when it has none).
pub open spec fn reveal_command_of(platform: Platform, path: Seq<char>, parent: Option<Seq<char>>) -> (
    Seq<char>,
    Seq<Seq<char>>,
) {
    match platform {
        Platform::MacOs => ("open"@, seq!["-R"@, path]),
        Platform::Windows => ("explorer.exe"@, seq!["/select,"@ + path]),
        Platform::Other => ("xdg-open"@, seq![
            match parent {
                Some(p) => p,
                None => path,
            },
        ]),
    }
}

/// The command that shows a saved file in the file manager.
pub fn reveal_command(platform: Platform, path: &str, parent: Option<&str>) -> (res: SystemCommand)
    ensures
        command_view(res) == reveal_command_of(
            platform,
            path@,
            match parent {
                Some(p) => Some(p@),
                None => None::<Seq<char>>,
            },
        ),
{
    let mut args: Vec<String> = Vec::new();
    let program = match platform {
        Platform::MacOs => {
            args.push("-R".to_owned());
            args.push(path.to_owned());
            "open".to_owned()
        },
        Platform::Windows => {
            let mut arg = "/select,".to_owned();
            arg.append(path);
            args.push(arg);
            "explorer.exe".to_owned()
        },
        Platform::Other => {
            match parent {
                Some(p) => args.push(p.to_owned()),
                None => args.push(path.to_owned()),
            }
            "xdg-open".to_owned()
        },
    };
    let res = SystemCommand { program, args };
    assert(command_view(res).1 =~= reveal_command_of(
        platform,
        path@,
        match parent {
            Some(p) => Some(p@),
            None => None::<Seq<char>>,
        },
    ).1);
    res
}

/// The index of the last `/` in a text.
pub open spec fn last_slash(s: Seq<char>) -> Option<int>
    decreases s.len(),
{
    if s.len() == 0 {
        None
    } else if s.last() == '/' {
        Some(s.len() - 1)
    } else {
        last_slash(s.drop_last())
    }
}

/// A path that every platform reads as plain components separated by `/`:
/// not empty, without `\\` and `:`, with a `/` but none at its end, and
/// whose pieces after the first are neither empty nor `.` or `..`.
pub open spec fn plain_path(path: Seq<char>) -> bool {
    &&& path.len() > 0
    &&& forall|i: int| 0 <= i < path.len() ==> path[i] != '\\' && path[i] != ':'
    &&& last_slash(path) is Some
    &&& path.last() != '/'
    &&& forall|i: int|
        1 <= i < split_on(path, '/').len() ==> {
            let p = #[trigger] split_on(path, '/')[i];
            p.len() > 0 && p != seq!['.'] && p != seq!['.', '.']
        }
}

/// The folder of a plain path: the text before its last `/`, or `/` when
/// that is its first character.
pub open spec fn plain_folder(path: Seq<char>) -> Seq<char> {
    let k = last_slash(path).unwrap();
    if k == 0 {
        seq!['/']
    } else {
        path.take(k)
    }
}

/// What `std::path::Path::parent` is documented to give, on every
/// platform: none for an empty path or the root `/`; `""` for a path of one
/// relative component (here: not empty, without `/`, `\\` and `:`); the
/// text before the last `/` for a plain path (`/foo/bar` gives `/foo`,
/// `/foo` gives `/`, `foo/bar` gives `foo`); and always a folder that is
/// the path without its final component, so a shorter prefix of it.
pub open spec fn parent_facts(path: Seq<char>, parent: Option<Seq<char>>) -> bool {
    &&& path.len() == 0 ==> parent is None
    &&& path == seq!['/'] ==> parent is None
    &&& path.len() > 0 && (forall|i: int|
        0 <= i < path.len() ==> path[i] != '/' && path[i] != '\\' && path[i] != ':')
        ==> parent == Some(Seq::<char>::empty())
    &&& plain_path(path) ==> parent == Some(plain_folder(path))
    &&& parent matches Some(p) ==> p.len() < path.len() && p =~= path.subrange(0, p.len() as int)
}

/// The folder that holds a path, by `std::path::Path::parent`. The contract
/// states the documented facts of [`parent_facts`]; which prefix the folder
/// is in general depends on the separators of the platform that the program
/// was built for, and is left unsaid.
#[verifier::external_body]
fn path_parent(path: &str) -> (res: Option<String>)
    ensures
        parent_facts(
            path@,
            match res {
                Some(p) => Some(p@),
                None => None::<Seq<char>>,
            },
        ),
{
    std::path::Path::new(path).parent().map(|p| p.to_string_lossy().into_owned())
}

/// The command that shows a saved file in the file manager, its folder
/// taken from the path: on macOS and Windows exactly
/// [`reveal_command_of`] of the path; elsewhere the folder opened is the
/// path's parent (see [`parent_facts`]), or the path itself when it has
/// none; for a plain path, the text before its last `/`.
pub fn file_manager_command(platform: Platform, path: &str) -> (res: SystemCommand)
    ensures
        platform == Platform::Other && plain_path(path@) ==> command_view(res) == (
            "xdg-open"@,
            seq![plain_folder(path@)],
        ),
        exists|parent: Option<Seq<char>>|
            parent_facts(path@, parent) && command_view(res) == #[trigger] reveal_command_of(
                platform,
                path@,
                parent,
            ),
{
    let parent = path_parent(path);
    let ghost folder = match &parent {
        Some(p) => Some(p@),
        None => None::<Seq<char>>,
    };
    let res = match &parent {
        Some(p) => reveal_command(platform, path, Some(p.as_str())),
        None => reveal_command(platform, path, None),
    };
    assert(command_view(res) == reveal_command_of(platform, path@, folder));
    res
}

} // verus!
