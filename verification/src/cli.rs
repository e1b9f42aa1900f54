//! Creating game projects with the Bevy command line tool: project name rules
//! and the errors the tool's operations report.

use vstd::prelude::*;
use crate::text::{
    concat, is_ascii_alpha, is_ascii_digit, is_ascii_lower, push_str, string_from_range, to_chars,
    trim, trim_bounds,
};

verus! {

/// Error type for Bevy CLI operations
#[derive(Debug)]
pub enum BevyCliError {
    /// IO error during command execution (its message)
    IoError(String),
    /// Cargo is not installed or not found in PATH
    CargoNotFound,
    /// Bevy CLI installation failed
    InstallFailed(String),
    /// Project creation failed
    CreateFailed(String),
    /// Invalid project name
    InvalidProjectName(String),
}

/// The GitHub URL for the Bevy CLI repository
pub const BEVY_CLI_REPO: &'static str = "https://github.com/TheBevyFlock/bevy_cli";

/// The tag/version of Bevy CLI to install
pub const BEVY_CLI_TAG: &'static str = "cli-v0.1.0-alpha.2";

/// The template URL for creating game projects with bevy_map_editor support
pub const GAME_TEMPLATE_URL: &'static str = "https://github.com/jbuehler23/bevy_map_editor_template";

/// The texts of a list of strings.
pub open spec fn arg_views(args: Seq<String>) -> Seq<Seq<char>> {
    args.map_values(|a: String| a@)
}

/// The arguments of the cargo command that installs Bevy CLI:
/// `install --git <repo> --tag <tag> --locked bevy_cli`.
pub fn install_args() -> (r: Vec<String>)
    ensures
        arg_views(r@) == seq![
            "install"@,
            "--git"@,
            "https://github.com/TheBevyFlock/bevy_cli"@,
            "--tag"@,
            "cli-v0.1.0-alpha.2"@,
            "--locked"@,
            "bevy_cli"@,
        ],
{
    let mut r: Vec<String> = Vec::new();
    r.push(String::from_str("install"));
    r.push(String::from_str("--git"));
    r.push(String::from_str(BEVY_CLI_REPO));
    r.push(String::from_str("--tag"));
    r.push(String::from_str(BEVY_CLI_TAG));
    r.push(String::from_str("--locked"));
    r.push(String::from_str("bevy_cli"));
    proof {
        reveal_strlit("install");
        reveal_strlit("--git");
        reveal_strlit("https://github.com/TheBevyFlock/bevy_cli");
        reveal_strlit("--tag");
        reveal_strlit("cli-v0.1.0-alpha.2");
        reveal_strlit("--locked");
        reveal_strlit("bevy_cli");
    }
    assert(arg_views(r@) =~= seq![
        "install"@,
        "--git"@,
        "https://github.com/TheBevyFlock/bevy_cli"@,
        "--tag"@,
        "cli-v0.1.0-alpha.2"@,
        "--locked"@,
        "bevy_cli"@,
    ]);
    r
}

/// The arguments of the `bevy` command that creates a game project named
/// `name` from the map editor template, placeholders filled in without
/// asking; an invalid crate name is refused.
pub fn create_project_args(name: &str) -> (r: Result<Vec<String>, BevyCliError>)
    ensures
        !spec_is_valid_crate_name(name@) <==> (r matches Err(BevyCliError::InvalidProjectName(n)) && n@ == name@),
        spec_is_valid_crate_name(name@) ==> (r matches Ok(args) && arg_views(args@) == seq![
            "new"@,
            name@,
            "--template"@,
            "https://github.com/jbuehler23/bevy_map_editor_template"@,
            "--"@,
            "--define"@,
            "author="@,
            "--define"@,
            "description=A game created with bevy_map_editor"@,
        ]),
{
    if !is_valid_crate_name(name) {
        return Err(BevyCliError::InvalidProjectName(name.to_string()));
    }
    let mut r: Vec<String> = Vec::new();
    r.push(String::from_str("new"));
    r.push(name.to_string());
    r.push(String::from_str("--template"));
    r.push(String::from_str(GAME_TEMPLATE_URL));
    r.push(String::from_str("--"));
    r.push(String::from_str("--define"));
    r.push(String::from_str("author="));
    r.push(String::from_str("--define"));
    r.push(String::from_str("description=A game created with bevy_map_editor"));
    proof {
        reveal_strlit("new");
        reveal_strlit("--template");
        reveal_strlit("https://github.com/jbuehler23/bevy_map_editor_template");
        reveal_strlit("--");
        reveal_strlit("--define");
        reveal_strlit("author=");
        reveal_strlit("description=A game created with bevy_map_editor");
    }
    assert(arg_views(r@) =~= seq![
        "new"@,
        name@,
        "--template"@,
        "https://github.com/jbuehler23/bevy_map_editor_template"@,
        "--"@,
        "--define"@,
        "author="@,
        "--define"@,
        "description=A game created with bevy_map_editor"@,
    ]);
    Ok(r)
}

/// The outcome of the cargo command that installs Bevy CLI, from whether it
/// succeeded and what it wrote to its error output.
pub fn install_outcome(success: bool, stderr: String) -> (r: Result<(), BevyCliError>)
    ensures
        success <==> r is Ok,
        !success ==> (r matches Err(BevyCliError::InstallFailed(m)) && m@ == stderr@),
{
    if success {
        Ok(())
    } else {
        Err(BevyCliError::InstallFailed(stderr))
    }
}

/// The outcome of the `bevy new` command, from whether it succeeded and what
/// it wrote to its error output.
pub fn create_outcome(success: bool, stderr: String) -> (r: Result<(), BevyCliError>)
    ensures
        success <==> r is Ok,
        !success ==> (r matches Err(BevyCliError::CreateFailed(m)) && m@ == stderr@),
{
    if success {
        Ok(())
    } else {
        Err(BevyCliError::CreateFailed(stderr))
    }
}

/// The Bevy CLI version reported by `bevy --version`: its output trimmed,
/// when the command succeeded.
pub fn version_from_output(success: bool, stdout: &str) -> (r: Option<String>)
    ensures
        success <==> r is Some,
        r matches Some(v) ==> v@ == trim(stdout@),
{
    if !success {
        return None;
    }
    let chars = to_chars(stdout);
    let (from, to) = trim_bounds(&chars, 0, chars.len());
    proof {
        assert(chars@.subrange(0, chars@.len() as int) =~= chars@);
    }
    Some(string_from_range(&chars, from, to))
}

/// Whether `c` may appear in a crate name: an ASCII lowercase letter, a digit,
/// an underscore or a hyphen.
pub open spec fn crate_name_char(c: char) -> bool {
    is_ascii_lower(c) || is_ascii_digit(c) || c == '_' || c == '-'
}

/// A valid crate name: not empty, starting with an ASCII letter or an
/// underscore, and made only of lowercase letters, digits, underscores and hyphens.
pub open spec fn spec_is_valid_crate_name(name: Seq<char>) -> bool {
    &&& name.len() > 0
    &&& (is_ascii_alpha(name[0]) || name[0] == '_')
    &&& forall|i: int| 0 <= i < name.len() ==> crate_name_char(#[trigger] name[i])
}

/// Check if a string is a valid Rust crate name
pub fn is_valid_crate_name(name: &str) -> (r: bool)
    ensures
        r == spec_is_valid_crate_name(name@),
{
    let chars = to_chars(name);
    if chars.len() == 0 {
        return false;
    }
    let first = chars[0];
    if !(('a' <= first && first <= 'z') || ('A' <= first && first <= 'Z')) && first != '_' {
        return false;
    }
    let mut i: usize = 0;
    while i < chars.len()
        invariant
            chars@ == name@,
            i <= chars@.len(),
            forall|j: int| 0 <= j < i ==> crate_name_char(#[trigger] chars@[j]),
        decreases chars@.len() - i,
    {
        let c = chars[i];
        if !(('a' <= c && c <= 'z') || ('0' <= c && c <= '9') || c == '_' || c == '-') {
            assert(!crate_name_char(chars@[i as int]));
            return false;
        }
        i = i + 1;
    }
    true
}

impl BevyCliError {
    /// The message shown for the error.
    pub fn message(&self) -> (r: String)
        ensures
            r@ == match self {
                BevyCliError::IoError(e) => "IO error: "@ + e@,
                BevyCliError::CargoNotFound => "Cargo not found. Please install Rust toolchain."@,
                BevyCliError::InstallFailed(m) => "Bevy CLI installation failed: "@ + m@,
                BevyCliError::CreateFailed(m) => "Project creation failed: "@ + m@,
                BevyCliError::InvalidProjectName(n) => "Invalid project name: '"@ + n@
                    + "'. Use lowercase letters, numbers, underscores, or hyphens."@,
            },
    {
        match self {
            BevyCliError::IoError(e) => concat("IO error: ", e.as_str()),
            BevyCliError::CargoNotFound => String::from_str("Cargo not found. Please install Rust toolchain."),
            BevyCliError::InstallFailed(m) => concat("Bevy CLI installation failed: ", m.as_str()),
            BevyCliError::CreateFailed(m) => concat("Project creation failed: ", m.as_str()),
            BevyCliError::InvalidProjectName(n) => {
                let mut r = concat("Invalid project name: '", n.as_str());
                push_str(&mut r, "'. Use lowercase letters, numbers, underscores, or hyphens.");
                r
            },
        }
    }
}

} // verus!
