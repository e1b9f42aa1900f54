//! Game build monitoring: the messages a build reports, the build state shown
//! in the editor, and the parsers that turn cargo's output lines into
//! progress information.

use vstd::prelude::*;
use crate::text::{
    decimal_digits, push_decimal, find, is_ascii_alpha, lemma_trim_start_of_bounds, matches_at, occurs_at, parse_u32,
    parse_u32_range, spec_find, string_from_chars, string_from_range, to_chars, trim, trim_bounds,
    trim_start,
};

verus! {

/// Messages sent from the build to the UI
#[derive(Debug, Clone, PartialEq, Eq)]
pub enum BuildOutput {
    /// Raw output line from cargo
    Line(String),
    /// Parsed progress: (current, total) crates
    Progress(u32, u32),
    /// Name of crate currently being compiled
    CurrentCrate(String),
    /// Build completed successfully
    BuildComplete,
    /// Build failed with error message
    BuildFailed(String),
    /// Game process has started
    GameStarted,
    /// Game process has exited
    GameExited(Option<i32>),
}

/// The mathematical content of a build message: its text as characters.
pub enum BuildOutputView {
    Line(Seq<char>),
    Progress(u32, u32),
    CurrentCrate(Seq<char>),
    BuildComplete,
    BuildFailed(Seq<char>),
    GameStarted,
    GameExited(Option<i32>),
}

impl View for BuildOutput {
    type V = BuildOutputView;

    open spec fn view(&self) -> BuildOutputView {
        match self {
            BuildOutput::Line(s) => BuildOutputView::Line(s@),
            BuildOutput::Progress(a, b) => BuildOutputView::Progress(*a, *b),
            BuildOutput::CurrentCrate(s) => BuildOutputView::CurrentCrate(s@),
            BuildOutput::BuildComplete => BuildOutputView::BuildComplete,
            BuildOutput::BuildFailed(s) => BuildOutputView::BuildFailed(s@),
            BuildOutput::GameStarted => BuildOutputView::GameStarted,
            BuildOutput::GameExited(c) => BuildOutputView::GameExited(*c),
        }
    }
}

/// State of a game build/run operation
#[derive(Debug, Clone)]
pub enum GameBuildState {
    /// No build in progress
    Idle,
    /// Currently building
    Building {
        /// Progress as (current, total) crates
        progress: Option<(u32, u32)>,
        /// Name of crate currently compiling
        current_crate: Option<String>,
        /// Recent output lines (last N lines for UI display)
        output_lines: Vec<String>,
        /// Path to the full log file
        log_file_path: Option<String>,
    },
    /// Build complete, game running
    Running {
        /// Path to the full log file
        log_file_path: Option<String>,
    },
    /// Build/run finished (success or stopped)
    Finished {
        /// Path to the full log file
        log_file_path: Option<String>,
    },
    /// Build or run failed
    Failed {
        /// Error message
        message: String,
        /// Path to the full log file
        log_file_path: Option<String>,
    },
}

impl Default for GameBuildState {
    fn default() -> (r: Self)
        ensures
            r is Idle,
    {
        GameBuildState::Idle
    }
}

/// Error type for game launching operations
#[derive(Debug)]
pub enum LaunchError {
    /// IO error during command execution (its message)
    IoError(String),
    /// Game project path not configured
    ProjectNotConfigured,
    /// Map file not saved
    MapNotSaved,
    /// Cargo not found in PATH
    CargoNotFound,
    /// Game launch failed
    LaunchFailed(String),
    /// Project directory doesn't exist
    ProjectNotFound(String),
}

/// Options for launching a game
#[derive(Debug, Clone)]
pub struct LaunchOptions {
    /// Path to the game project directory (contains Cargo.toml)
    pub project_path: String,
    /// Whether to use release mode
    pub release: bool,
    /// Whether to enable hot-reload (adds 'hot_reload' feature)
    pub hot_reload: bool,
}

/// The escape character that starts an ANSI control sequence.
pub open spec fn esc() -> char {
    '\u{1b}'
}

/// Where the ANSI stripper stands between two characters.
#[derive(Clone, Copy, PartialEq, Eq, Structural)]
pub enum AnsiState {
    /// Copying ordinary text
    Text,
    /// Just read an escape character
    Escape,
    /// Inside a control sequence `ESC [ ...`, which ends with an ASCII letter
    Sequence,
}

/// One step of the ANSI stripper: the next state, and the character copied to
/// the output, if any. An escape followed by `[` opens a sequence that runs to
/// the first ASCII letter; an escape followed by anything else is dropped and
/// the following character is read as ordinary text.
pub open spec fn ansi_step(state: AnsiState, c: char) -> (AnsiState, Option<char>) {
    match state {
        AnsiState::Sequence => if is_ascii_alpha(c) {
            (AnsiState::Text, None)
        } else {
            (AnsiState::Sequence, None)
        },
        AnsiState::Escape => if c == '[' {
            (AnsiState::Sequence, None)
        } else if c == esc() {
            (AnsiState::Escape, None)
        } else {
            (AnsiState::Text, Some(c))
        },
        AnsiState::Text => if c == esc() {
            (AnsiState::Escape, None)
        } else {
            (AnsiState::Text, Some(c))
        },
    }
}

/// The state and output of the ANSI stripper after reading all of `s`.
pub open spec fn ansi_run(s: Seq<char>) -> (AnsiState, Seq<char>)
    decreases s.len(),
{
    if s.len() == 0 {
        (AnsiState::Text, Seq::empty())
    } else {
        let (st, out) = ansi_run(s.drop_last());
        let (st2, emitted) = ansi_step(st, s.last());
        (st2, match emitted {
            Some(c) => out.push(c),
            None => out,
        })
    }
}

/// `s` without its ANSI escape sequences.
pub open spec fn spec_strip_ansi(s: Seq<char>) -> Seq<char> {
    ansi_run(s).1
}

/// The characters of `s` with ANSI escape sequences removed.
fn strip_ansi_chars(s: &[char]) -> (r: Vec<char>)
    ensures
        r@ == spec_strip_ansi(s@),
{
    let mut out: Vec<char> = Vec::new();
    let mut state = AnsiState::Text;
    let mut i: usize = 0;
    while i < s.len()
        invariant
            i <= s@.len(),
            (state, out@) == ansi_run(s@.subrange(0, i as int)),
        decreases s@.len() - i,
    {
        let c = s[i];
        proof {
            let p = s@.subrange(0, i + 1);
            assert(p.drop_last() =~= s@.subrange(0, i as int));
            assert(p.last() == c);
        }
        match state {
            AnsiState::Sequence => {
                if ('a' <= c && c <= 'z') || ('A' <= c && c <= 'Z') {
                    state = AnsiState::Text;
                }
            },
            AnsiState::Escape => {
                if c == '[' {
                    state = AnsiState::Sequence;
                } else if c == '\u{1b}' {
                    state = AnsiState::Escape;
                } else {
                    state = AnsiState::Text;
                    out.push(c);
                }
            },
            AnsiState::Text => {
                if c == '\u{1b}' {
                    state = AnsiState::Escape;
                } else {
                    out.push(c);
                }
            },
        }
        i = i + 1;
    }
    assert(s@.subrange(0, s@.len() as int) =~= s@);
    out
}

/// Strip ANSI escape codes from a string
pub fn strip_ansi_codes(s: &str) -> (r: String)
    ensures
        r@ == spec_strip_ansi(s@),
{
    let chars = to_chars(s);
    let out = strip_ansi_chars(&chars);
    string_from_chars(&out)
}

/// Whether `pat` occurs somewhere in `s`.
pub open spec fn contains(s: Seq<char>, pat: Seq<char>) -> bool {
    exists|i: int| occurs_at(s, pat, i)
}

/// How many times `c` occurs in `s`.
pub open spec fn count_char(s: Seq<char>, c: char) -> nat
    decreases s.len(),
{
    if s.len() == 0 {
        0
    } else {
        count_char(s.drop_last(), c) + if s.last() == c { 1nat } else { 0nat }
    }
}

/// The progress that a cargo output line reports: after ANSI codes are
/// removed, a line containing `Building [` carries `current/total` between the
/// first `] ` and the next `:`; the text there must hold exactly one `/`, and
/// both sides, trimmed, must parse as `u32`.
#[verifier::opaque]
pub open spec fn spec_parse_progress(line: Seq<char>) -> Option<(u32, u32)> {
    let clean = spec_strip_ansi(line);
    if !contains(clean, "Building ["@) {
        None
    } else {
        match spec_find(clean, "] "@) {
            None => None,
            Some(be) => {
                let after = clean.subrange(be + 2, clean.len() as int);
                match spec_find(after, ":"@) {
                    None => None,
                    Some(colon) => {
                        let numbers = after.subrange(0, colon);
                        if count_char(numbers, '/') != 1 {
                            None
                        } else {
                            let slash = spec_find(numbers, "/"@)->0;
                            match (
                                parse_u32(trim(numbers.subrange(0, slash))),
                                parse_u32(trim(numbers.subrange(slash + 1, numbers.len() as int))),
                            ) {
                                (Some(a), Some(b)) => Some((a, b)),
                                _ => None,
                            }
                        }
                    },
                }
            },
        }
    }
}

/// Number of occurrences of `c` in `s[from..to]`, with the first position of one.
fn count_and_find_char(s: &[char], from: usize, to: usize, c: char) -> (r: (usize, Option<usize>))
    requires
        from <= to <= s@.len(),
    ensures
        r.0 == count_char(s@.subrange(from as int, to as int), c),
        r.1 matches Some(p) ==> from <= p < to && s@[p as int] == c && forall|j: int|
            from <= j < p ==> s@[j] != c,
        r.1 is None ==> forall|j: int| from <= j < to ==> s@[j] != c,
        r.1 is None ==> r.0 == 0,
{
    let mut n: usize = 0;
    let mut first: Option<usize> = None;
    let mut i = from;
    while i < to
        invariant
            from <= i <= to <= s@.len(),
            n == count_char(s@.subrange(from as int, i as int), c),
            n <= i - from,
            first matches Some(p) ==> from <= p < i && s@[p as int] == c && forall|j: int|
                from <= j < p ==> s@[j] != c,
            first is None ==> forall|j: int| from <= j < i ==> s@[j] != c,
            first is None ==> n == 0,
        decreases to - i,
    {
        proof {
            let p = s@.subrange(from as int, i + 1);
            assert(p.drop_last() =~= s@.subrange(from as int, i as int));
        }
        if s[i] == c {
            n = n + 1;
            if first.is_none() {
                first = Some(i);
            }
        }
        i = i + 1;
    }
    (n, first)
}

/// Parse progress from cargo output line.
/// Looks for patterns like: "Building [=====>    ] 113/413: ..."
pub fn parse_progress(line: &str) -> (r: Option<(u32, u32)>)
    ensures
        r == spec_parse_progress(line@),
{
    reveal(spec_parse_progress);
    let raw = to_chars(line);
    let clean = strip_ansi_chars(&raw);
    let building = to_chars("Building [");
    let close = to_chars("] ");
    let colon_pat = to_chars(":");
    let slash_pat = to_chars("/");
    proof {
        reveal_strlit("Building [");
        reveal_strlit("] ");
        reveal_strlit(":");
        reveal_strlit("/");
    }
    match find(&clean, &building) {
        None => {
            return None;
        },
        Some(_) => {},
    }
    let be = match find(&clean, &close) {
        None => {
            return None;
        },
        Some(be) => be,
    };
    let clean_len = clean.len();
    assert(be + 2 <= clean_len);
    let ghost after = clean@.subrange(be + 2, clean@.len() as int);
    let start = be + 2;
    let tail = slice_from(&clean, start);
    assert(tail@ == after);
    let colon = match find(&tail, &colon_pat) {
        None => {
            return None;
        },
        Some(c) => c,
    };
    let ghost numbers = after.subrange(0, colon as int);
    let (count, first) = count_and_find_char(&tail, 0, colon, '/');
    if count != 1 {
        return None;
    }
    let slash = match first {
        Some(p) => p,
        None => {
            return None;
        },
    };
    proof {
        assert(tail@.subrange(0, colon as int) == numbers);
        assert("/"@ =~= seq!['/']);
        assert(numbers[slash as int] == '/');
        assert(occurs_at(numbers, "/"@, slash as int)) by {
            assert(numbers.subrange(slash as int, slash + 1) =~= seq!['/']);
        }
        assert forall|j: int| 0 <= j < slash implies !occurs_at(numbers, "/"@, j) by {
            assert(numbers.subrange(j, j + 1)[0] == numbers[j]);
        }
        let f = spec_find(numbers, "/"@);
        assert(f == Some(slash as int)) by {
            let w = choose|w: int|
                occurs_at(numbers, "/"@, w) && forall|j: int| 0 <= j < w ==> !occurs_at(numbers, "/"@, j);
            assert(occurs_at(numbers, "/"@, w));
            if w < slash {
            } else if w > slash {
            }
        }
    }
    let (a0, a1) = trim_bounds(&tail, 0, slash);
    let (b0, b1) = trim_bounds(&tail, slash + 1, colon);
    proof {
        assert(tail@.subrange(0, slash as int) =~= numbers.subrange(0, slash as int));
        assert(tail@.subrange(slash + 1, colon as int) =~= numbers.subrange(
            slash + 1,
            numbers.len() as int,
        ));
    }
    let first_num = parse_u32_range(&tail, a0, a1);
    let second_num = parse_u32_range(&tail, b0, b1);
    match (first_num, second_num) {
        (Some(a), Some(b)) => Some((a, b)),
        _ => None,
    }
}

/// The crate named by a `Compiling <crate> v<version>` line: after ANSI codes
/// are removed and the line is trimmed, it must start with `Compiling `, and
/// the name is the text up to the first ` v` after that.
#[verifier::opaque]
pub open spec fn spec_parse_compiling_crate(line: Seq<char>) -> Option<Seq<char>> {
    let t = trim(spec_strip_ansi(line));
    if occurs_at(t, "Compiling "@, 0) {
        let rest = t.subrange(10, t.len() as int);
        match spec_find(rest, " v"@) {
            Some(v) => Some(rest.subrange(0, v)),
            None => None,
        }
    } else {
        None
    }
}

/// Parse crate name from "Compiling <crate> v<version>" lines
pub fn parse_compiling_crate(line: &str) -> (r: Option<String>)
    ensures
        match spec_parse_compiling_crate(line@) {
            Some(name) => r matches Some(s) && s@ == name,
            None => r is None,
        },
{
    reveal(spec_parse_compiling_crate);
    let raw = to_chars(line);
    let clean = strip_ansi_chars(&raw);
    let (a, b) = trim_bounds(&clean, 0, clean.len());
    assert(clean@.subrange(0, clean@.len() as int) =~= clean@);
    let trimmed = slice_range(&clean, a, b);
    let prefix = to_chars("Compiling ");
    let marker = to_chars(" v");
    proof {
        reveal_strlit("Compiling ");
        reveal_strlit(" v");
    }
    if !matches_at(&trimmed, &prefix, 0) {
        return None;
    }
    let rest = slice_from(&trimmed, 10);
    match find(&rest, &marker) {
        Some(v) => Some(string_from_range(&rest, 0, v)),
        None => None,
    }
}

/// The progress message of a line, if it reports progress.
pub open spec fn progress_part(line: Seq<char>) -> Seq<BuildOutputView> {
    match spec_parse_progress(line) {
        Some((a, b)) => seq![BuildOutputView::Progress(a, b)],
        None => Seq::empty(),
    }
}

/// The current-crate message of a line, if it names a crate being compiled.
pub open spec fn crate_part(line: Seq<char>) -> Seq<BuildOutputView> {
    match spec_parse_compiling_crate(line) {
        Some(name) => seq![BuildOutputView::CurrentCrate(name)],
        None => Seq::empty(),
    }
}

/// Whether the messages for `line` include the end of the build: the line,
/// without leading whitespace, starts with `Finished` and the end has not been
/// reported yet.
pub open spec fn spec_line_completes(line: Seq<char>, complete_sent: bool) -> bool {
    !complete_sent && occurs_at(trim_start(line), "Finished"@, 0)
}

/// The end-of-build message of a line, if any.
pub open spec fn complete_part(line: Seq<char>, complete_sent: bool) -> Seq<BuildOutputView> {
    if spec_line_completes(line, complete_sent) {
        seq![BuildOutputView::BuildComplete]
    } else {
        Seq::empty()
    }
}

/// The game-started message of a line: it starts, after leading whitespace,
/// with "Running `".
pub open spec fn started_part(line: Seq<char>) -> Seq<BuildOutputView> {
    if occurs_at(trim_start(line), "Running `"@, 0) {
        seq![BuildOutputView::GameStarted]
    } else {
        Seq::empty()
    }
}

/// The echo of the line itself, unless it is a progress bar line.
pub open spec fn echo_part(line: Seq<char>) -> Seq<BuildOutputView> {
    if !contains(line, "Building ["@) {
        seq![BuildOutputView::Line(line)]
    } else {
        Seq::empty()
    }
}

/// The messages one complete line of cargo's error output produces, in the
/// order they are sent: its progress, the crate it compiles, the end of the
/// build (reported once: only while `complete_sent` is false), the start of the
/// game, and the line itself unless it is a progress bar line.
pub open spec fn spec_line_messages(line: Seq<char>, complete_sent: bool) -> Seq<BuildOutputView> {
    progress_part(line) + crate_part(line) + complete_part(line, complete_sent) + started_part(line)
        + echo_part(line)
}

/// The views of a sequence of messages.
pub open spec fn views(s: Seq<BuildOutput>) -> Seq<BuildOutputView> {
    s.map_values(|o: BuildOutput| o@)
}

proof fn lemma_views_push(s: Seq<BuildOutput>, o: BuildOutput)
    ensures
        views(s.push(o)) == views(s).push(o@),
{
    assert(views(s.push(o)) =~= views(s).push(o@));
}

/// The messages for one complete line of cargo's error output, and whether the
/// end of the build has been reported once this line is handled.
pub fn line_messages(line: &[char], complete_sent: bool) -> (r: (Vec<BuildOutput>, bool))
    ensures
        views(r.0@) == spec_line_messages(line@, complete_sent),
        r.1 == (complete_sent || spec_line_completes(line@, complete_sent)),
{
    let mut out: Vec<BuildOutput> = Vec::new();
    let line_str = string_from_chars(line);
    let progress = parse_progress(line_str.as_str());
    match progress {
        Some((a, b)) => {
            proof { lemma_views_push(out@, BuildOutput::Progress(a, b)); }
            out.push(BuildOutput::Progress(a, b));
        },
        None => {},
    }
    assert(views(out@) =~= progress_part(line@));
    let ghost so_far = views(out@);
    let krate = parse_compiling_crate(line_str.as_str());
    match krate {
        Some(name) => {
            proof { lemma_views_push(out@, BuildOutput::CurrentCrate(name)); }
            out.push(BuildOutput::CurrentCrate(name));
        },
        None => {},
    }
    assert(views(out@) =~= so_far + crate_part(line@));
    let ghost so_far = views(out@);
    let (start, _) = trim_bounds(line, 0, line.len());
    proof {
        assert(line@.subrange(0, line@.len() as int) =~= line@);
    }
    let trimmed = slice_from(line, start);
    let finished = to_chars("Finished");
    let running = to_chars("Running `");
    let building = to_chars("Building [");
    proof {
        reveal_strlit("Finished");
        reveal_strlit("Running `");
        reveal_strlit("Building [");
        lemma_trim_start_of_bounds(line@, start as int);
    }
    let mut sent = complete_sent;
    if !complete_sent && matches_at(&trimmed, &finished, 0) {
        proof { lemma_views_push(out@, BuildOutput::BuildComplete); }
        out.push(BuildOutput::BuildComplete);
        sent = true;
    }
    assert(views(out@) =~= so_far + complete_part(line@, complete_sent));
    let ghost so_far = views(out@);
    if matches_at(&trimmed, &running, 0) {
        proof { lemma_views_push(out@, BuildOutput::GameStarted); }
        out.push(BuildOutput::GameStarted);
    }
    assert(views(out@) =~= so_far + started_part(line@));
    let ghost so_far = views(out@);
    let has_bar = match find(line, &building) {
        Some(_) => true,
        None => false,
    };
    if !has_bar {
        let echo = BuildOutput::Line(string_from_chars(line));
        proof { lemma_views_push(out@, echo); }
        out.push(echo);
    }
    assert(views(out@) =~= so_far + echo_part(line@));
    (out, sent)
}

/// Reads cargo's error output one byte at a time, splitting it into lines at
/// carriage returns and line feeds (cargo redraws its progress bar with `\r`),
/// and turns each non-empty line into build messages.
pub struct BuildLogReader {
    /// The characters of the line read so far (each byte read as the
    /// character with that code)
    pub buffer: Vec<char>,
    /// Whether the end of the build has already been reported
    pub complete_sent: bool,
}

impl BuildLogReader {
    /// A reader at the start of the output.
    pub fn new() -> (r: Self)
        ensures
            r.buffer@.len() == 0,
            !r.complete_sent,
    {
        BuildLogReader { buffer: Vec::new(), complete_sent: false }
    }

    /// Read one byte of output and return the messages it completes.
    pub fn feed_byte(&mut self, b: u8) -> (r: Vec<BuildOutput>)
        ensures
            (b == 13 || b == 10) && old(self).buffer@.len() > 0 ==> {
                &&& views(r@) == spec_line_messages(old(self).buffer@, old(self).complete_sent)
                &&& final(self).buffer@.len() == 0
                &&& final(self).complete_sent == (old(self).complete_sent || spec_line_completes(
                    old(self).buffer@,
                    old(self).complete_sent,
                ))
            },
            (b == 13 || b == 10) && old(self).buffer@.len() == 0 ==> {
                &&& r@.len() == 0
                &&& final(self).buffer@.len() == 0
                &&& final(self).complete_sent == old(self).complete_sent
            },
            !(b == 13 || b == 10) ==> {
                &&& r@.len() == 0
                &&& final(self).buffer@ == old(self).buffer@.push(b as char)
                &&& final(self).complete_sent == old(self).complete_sent
            },
    {
        if b == 13 || b == 10 {
            if self.buffer.len() > 0 {
                let (msgs, sent) = line_messages(&self.buffer, self.complete_sent);
                self.buffer = Vec::new();
                self.complete_sent = sent;
                msgs
            } else {
                Vec::new()
            }
        } else {
            self.buffer.push(b as char);
            Vec::new()
        }
    }
}

/// The characters `s[from..to]` as a vector.
fn slice_range(s: &[char], from: usize, to: usize) -> (r: Vec<char>)
    requires
        from <= to <= s@.len(),
    ensures
        r@ == s@.subrange(from as int, to as int),
{
    let mut r: Vec<char> = Vec::new();
    let mut i = from;
    while i < to
        invariant
            from <= i <= to <= s@.len(),
            r@ == s@.subrange(from as int, i as int),
        decreases to - i,
    {
        r.push(s[i]);
        i = i + 1;
        assert(r@ =~= s@.subrange(from as int, i as int));
    }
    r
}

/// The characters `s[from..]` as a vector.
fn slice_from(s: &[char], from: usize) -> (r: Vec<char>)
    requires
        from <= s@.len(),
    ensures
        r@ == s@.subrange(from as int, s@.len() as int),
{
    let mut r: Vec<char> = Vec::new();
    let mut i = from;
    while i < s.len()
        invariant
            from <= i <= s@.len(),
            r@ == s@.subrange(from as int, i as int),
        decreases s@.len() - i,
    {
        r.push(s[i]);
        i = i + 1;
        assert(r@ =~= s@.subrange(from as int, i as int));
    }
    r
}

impl LaunchError {
    /// The message shown for the error.
    pub fn message(&self) -> (r: String)
        ensures
            r@ == match self {
                LaunchError::IoError(e) => "IO error: "@ + e@,
                LaunchError::ProjectNotConfigured => "Game project not configured. Go to Project > Game Settings."@,
                LaunchError::MapNotSaved => "Save the map project before running the game."@,
                LaunchError::CargoNotFound => "Cargo not found. Please install Rust toolchain."@,
                LaunchError::LaunchFailed(m) => "Failed to launch game: "@ + m@,
                LaunchError::ProjectNotFound(p) => "Game project not found at: "@ + p@,
            },
    {
        match self {
            LaunchError::IoError(e) => crate::text::concat("IO error: ", e.as_str()),
            LaunchError::ProjectNotConfigured => String::from_str(
                "Game project not configured. Go to Project > Game Settings.",
            ),
            LaunchError::MapNotSaved => String::from_str("Save the map project before running the game."),
            LaunchError::CargoNotFound => String::from_str("Cargo not found. Please install Rust toolchain."),
            LaunchError::LaunchFailed(m) => crate::text::concat("Failed to launch game: ", m.as_str()),
            LaunchError::ProjectNotFound(p) => crate::text::concat("Game project not found at: ", p.as_str()),
        }
    }
}

/// The texts of a list of strings.
pub open spec fn string_views(args: Seq<String>) -> Seq<Seq<char>> {
    args.map_values(|a: String| a@)
}

/// The arguments of the cargo command that builds and runs the game:
/// `run`, then `--release` for a release build, then `--features hot_reload`
/// when hot reloading is asked for.
pub fn cargo_run_args(options: &LaunchOptions) -> (r: Vec<String>)
    ensures
        string_views(r@) == seq!["run"@] + (if options.release {
            seq!["--release"@]
        } else {
            Seq::empty()
        }) + (if options.hot_reload {
            seq!["--features"@, "hot_reload"@]
        } else {
            Seq::empty()
        }),
{
    proof {
        reveal_strlit("run");
        reveal_strlit("--release");
        reveal_strlit("--features");
        reveal_strlit("hot_reload");
    }
    let mut r: Vec<String> = Vec::new();
    r.push(String::from_str("run"));
    if options.release {
        r.push(String::from_str("--release"));
    }
    if options.hot_reload {
        r.push(String::from_str("--features"));
        r.push(String::from_str("hot_reload"));
    }
    assert(string_views(r@) =~= seq!["run"@] + (if options.release {
        seq!["--release"@]
    } else {
        Seq::empty()
    }) + (if options.hot_reload {
        seq!["--features"@, "hot_reload"@]
    } else {
        Seq::empty()
    }));
    r
}

/// Whether a game project can be launched, from what the file system says:
/// the project directory and its `Cargo.toml` must both exist, otherwise the
/// project is reported not found at its path.
pub fn check_project_present(options: &LaunchOptions, dir_exists: bool, manifest_exists: bool) -> (r: Result<(), LaunchError>)
    ensures
        (dir_exists && manifest_exists) <==> r is Ok,
        !(dir_exists && manifest_exists) ==> (r matches Err(LaunchError::ProjectNotFound(p)) && p@ == options.project_path@),
{
    if !dir_exists || !manifest_exists {
        return Err(LaunchError::ProjectNotFound(options.project_path.clone()));
    }
    Ok(())
}

/// The name of the build log file for a build started at `timestamp`
/// (seconds since the Unix epoch).
pub fn build_log_file_name(timestamp: u64) -> (r: String)
    ensures
        r@ == "bevy_map_editor_build_"@ + decimal_digits(timestamp as nat) + ".log"@,
{
    let mut r = String::from_str("bevy_map_editor_build_");
    push_decimal(&mut r, timestamp);
    r.append(".log");
    proof {
        reveal_strlit("bevy_map_editor_build_");
        reveal_strlit(".log");
    }
    r
}

/// How `{:?}` writes an exit code: `Some(<code>)` or `None`.
pub open spec fn exit_code_text(code: Option<i32>) -> Seq<char> {
    match code {
        Some(c) => "Some("@ + crate::properties::int_text(c as i64) + ")"@,
        None => "None"@,
    }
}

/// The last message of a build-and-run once the cargo process has exited:
/// the game's exit when the process succeeded, otherwise a failure naming the
/// exit code.
pub fn process_exit_output(success: bool, code: Option<i32>) -> (r: BuildOutput)
    ensures
        success ==> r == BuildOutput::GameExited(code),
        !success ==> (r matches BuildOutput::BuildFailed(m) && m@ == "Process exited with code: "@
            + exit_code_text(code)),
{
    if success {
        return BuildOutput::GameExited(code);
    }
    proof {
        reveal_strlit("Process exited with code: ");
        reveal_strlit("Some(");
        reveal_strlit(")");
        reveal_strlit("None");
    }
    let mut m = String::from_str("Process exited with code: ");
    match code {
        Some(c) => {
            m.append("Some(");
            let digits = crate::properties::int_to_text(c as i64);
            m.append(digits.as_str());
            m.append(")");
        },
        None => {
            m.append("None");
        },
    }
    BuildOutput::BuildFailed(m)
}

/// The last message of a build that was cancelled.
pub fn cancelled_output() -> (r: BuildOutput)
    ensures
        r matches BuildOutput::BuildFailed(m) && m@ == "Build cancelled"@,
{
    proof {
        reveal_strlit("Build cancelled");
    }
    BuildOutput::BuildFailed(String::from_str("Build cancelled"))
}

} // verus!
