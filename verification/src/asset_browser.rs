//! The asset browser: file entries, their kinds, filters, sorting, and the
//! directory history of the browser panel.

use vstd::prelude::*;
use crate::text::{
    decimal_digits,
    digit_char,
    push_char,
    push_decimal,
    str_equal,
    chars_contain,
    chars_eq_ignore_ascii_case,
    chars_less,
    contains_seq,
    lemma_seq_lt_asymmetric,
    lemma_seq_lt_transitive,
    eq_ignore_ascii_case,
    lowercase,
    seq_lt,
    split_char,
    split_chars,
    string_from_range,
    strip_leading,
    to_chars,
    to_lowercase,
    trim,
    trim_bounds,
};

verus! {

/// Filter settings for the asset browser
#[derive(Debug, Clone)]
pub struct FileFilter {
    pub show_images: bool,
    pub show_audio: bool,
    pub show_json: bool,
    pub show_folders: bool,
    pub search_text: String,
    pub custom_extensions: String,
}

impl Default for FileFilter {
    fn default() -> (r: Self)
        ensures
            r.show_images && !r.show_audio && r.show_json && r.show_folders,
            r.search_text@.len() == 0,
            r.custom_extensions@.len() == 0,
    {
        FileFilter {
            show_images: true,
            show_audio: false,
            show_json: true,
            show_folders: true,
            search_text: String::new(),
            custom_extensions: String::new(),
        }
    }
}

/// Sort order for files
#[derive(Debug, Clone, Copy, PartialEq, Eq, Structural)]
pub enum SortOrder {
    Name,
    Date,
    Size,
    Type,
}

impl Default for SortOrder {
    fn default() -> (r: Self)
        ensures
            r == SortOrder::Name,
    {
        SortOrder::Name
    }
}

/// View mode for the browser
#[derive(Debug, Clone, Copy, PartialEq, Eq, Structural)]
pub enum ViewMode {
    Grid,
    List,
}

impl Default for ViewMode {
    fn default() -> (r: Self)
        ensures
            r == ViewMode::Grid,
    {
        ViewMode::Grid
    }
}

/// Represents a file or folder entry
#[derive(Debug, Clone)]
pub struct FileEntry {
    pub path: String,
    pub name: String,
    /// Pre-computed lowercase name for efficient sorting/searching
    pub name_lower: String,
    pub is_dir: bool,
    /// Lowercase file extension (none for directories)
    pub extension: Option<String>,
    pub size: u64,
}

impl FileEntry {
    /// Describe a file or folder: the lowercase forms of the name and of the
    /// extension are computed here; a folder keeps no extension.
    pub fn new(path: String, name: String, is_dir: bool, extension: Option<String>, size: u64) -> (r: FileEntry)
        ensures
            r.path == path,
            r.name == name,
            r.name_lower@ == lowercase(name@),
            r.is_dir == is_dir,
            is_dir ==> r.extension is None,
            !is_dir ==> match extension {
                Some(e) => r.extension matches Some(l) && l@ == lowercase(e@),
                None => r.extension is None,
            },
            r.size == size,
    {
        let name_lower = to_lowercase(name.as_str());
        let extension = if is_dir {
            None
        } else {
            match extension {
                Some(e) => Some(to_lowercase(e.as_str())),
                None => None,
            }
        };
        FileEntry { path, name, name_lower, is_dir, extension, size }
    }
}

/// Whether an entry's extension is one of `exts`.
pub open spec fn extension_in(ext: Option<String>, exts: Seq<Seq<char>>) -> bool {
    match ext {
        Some(e) => exts.contains(e@),
        None => false,
    }
}

/// The extensions of image files.
pub open spec fn image_extensions() -> Seq<Seq<char>> {
    seq!["png"@, "jpg"@, "jpeg"@, "gif"@, "bmp"@, "webp"@]
}

/// The extensions of audio files.
pub open spec fn audio_extensions() -> Seq<Seq<char>> {
    seq!["ogg"@, "wav"@, "mp3"@, "flac"@]
}

/// The texts of a sequence of string slices.
pub open spec fn literal_views(s: Seq<&str>) -> Seq<Seq<char>> {
    s.map_values(|x: &str| x@)
}

/// Whether `e` equals one of the string literals in `exts`.
fn extension_matches(e: &Option<String>, exts: &[&str]) -> (r: bool)
    ensures
        r == extension_in(*e, literal_views(exts@)),
{
    match e {
        Some(ext) => {
            let mut i: usize = 0;
            while i < exts.len()
                invariant
                    *e == Some(*ext),
                    i <= exts@.len(),
                    forall|j: int| 0 <= j < i ==> exts@[j]@ != ext@,
                decreases exts@.len() - i,
            {
                if str_equal(ext.as_str(), exts[i]) {
                    assert(literal_views(exts@)[i as int] == ext@);
                    assert(literal_views(exts@).contains(ext@));
                    assert(*e == Some(*ext));
                    assert(extension_in(*e, literal_views(exts@)));
                    return true;
                }
                i = i + 1;
            }
            let ghost views = literal_views(exts@);
            assert(!views.contains(ext@)) by {
                if views.contains(ext@) {
                    let k = choose|k: int| 0 <= k < views.len() && #[trigger] views[k] == ext@;
                    assert(exts@[k]@ == ext@);
                }
            }
            false
        },
        None => false,
    }
}

impl FileEntry {
    /// Whether the entry is an image file (by extension)
    pub open spec fn spec_is_image(&self) -> bool {
        extension_in(self.extension, image_extensions())
    }

    /// Whether the entry is an audio file (by extension)
    pub open spec fn spec_is_audio(&self) -> bool {
        extension_in(self.extension, audio_extensions())
    }

    /// Whether the entry is a JSON file (by extension)
    pub open spec fn spec_is_json(&self) -> bool {
        extension_in(self.extension, seq!["json"@])
    }

    pub fn is_image(&self) -> (r: bool)
        ensures
            r == self.spec_is_image(),
    {
        let exts: [&str; 6] = ["png", "jpg", "jpeg", "gif", "bmp", "webp"];
        proof {
            reveal_strlit("png");
            reveal_strlit("jpg");
            reveal_strlit("jpeg");
            reveal_strlit("gif");
            reveal_strlit("bmp");
            reveal_strlit("webp");
            assert(literal_views(exts@) =~= image_extensions());
        }
        extension_matches(&self.extension, &exts)
    }

    pub fn is_audio(&self) -> (r: bool)
        ensures
            r == self.spec_is_audio(),
    {
        let exts: [&str; 4] = ["ogg", "wav", "mp3", "flac"];
        proof {
            assert(literal_views(exts@) =~= audio_extensions());
        }
        extension_matches(&self.extension, &exts)
    }

    pub fn is_json(&self) -> (r: bool)
        ensures
            r == self.spec_is_json(),
    {
        let exts: [&str; 1] = ["json"];
        proof {
            assert(literal_views(exts@) =~= seq!["json"@]);
        }
        extension_matches(&self.extension, &exts)
    }

    /// The icon shown for the entry: folder, image, music note, document, or
    /// generic file.
    pub fn file_type_icon(&self) -> (r: &'static str)
        ensures
            r@ == if self.is_dir {
                "\u{1F4C1}"@
            } else if self.spec_is_image() {
                "\u{1F5BC}"@
            } else if self.spec_is_audio() {
                "\u{1F3B5}"@
            } else if self.spec_is_json() {
                "\u{1F4C4}"@
            } else {
                "\u{1F4C3}"@
            },
    {
        if self.is_dir {
            "\u{1F4C1}"
        } else if self.is_image() {
            "\u{1F5BC}"
        } else if self.is_audio() {
            "\u{1F3B5}"
        } else if self.is_json() {
            "\u{1F4C4}"
        } else {
            "\u{1F4C3}"
        }
    }
}

/// Result from rendering the asset browser
#[derive(Debug, Clone)]
pub struct AssetBrowserResult {
    pub file_activated: Option<String>,
}

impl Default for AssetBrowserResult {
    fn default() -> (r: Self)
        ensures
            r.file_activated is None,
    {
        AssetBrowserResult { file_activated: None }
    }
}

/// The texts of a sequence of strings.
pub open spec fn string_views(s: Seq<String>) -> Seq<Seq<char>> {
    s.map_values(|x: String| x@)
}

/// State for the asset browser
#[derive(Debug, Clone)]
pub struct AssetBrowserState {
    pub current_path: String,
    pub history: Vec<String>,
    pub history_index: usize,
    pub filter: FileFilter,
    pub selected_file: Option<String>,
    pub sort_order: SortOrder,
    pub view_mode: ViewMode,
    /// Cached directory entries
    pub cached_entries: Option<Vec<FileEntry>>,
    /// Path that was cached
    pub cached_path: Option<String>,
}

impl AssetBrowserState {
    /// The history position points into the history, at the current path.
    pub open spec fn wf(&self) -> bool {
        &&& self.history_index < self.history@.len()
        &&& self.current_path@ == self.history@[self.history_index as int]@
    }

    /// The visited paths, oldest first.
    pub open spec fn history_view(&self) -> Seq<Seq<char>> {
        string_views(self.history@)
    }

    /// A browser showing `start`, with no other history.
    pub fn new(start: String) -> (r: Self)
        ensures
            r.wf(),
            r.current_path@ == start@,
            r.history_view() == seq![start@],
            r.history_index == 0,
            r.selected_file is None,
            r.sort_order == SortOrder::Name,
            r.view_mode == ViewMode::Grid,
            r.cached_entries is None,
            r.cached_path is None,
    {
        let first = start.clone();
        let mut history: Vec<String> = Vec::new();
        history.push(first);
        let r = AssetBrowserState {
            current_path: start,
            history,
            history_index: 0,
            filter: FileFilter::default(),
            selected_file: None,
            sort_order: SortOrder::Name,
            view_mode: ViewMode::Grid,
            cached_entries: None,
            cached_path: None,
        };
        assert(r.history_view() =~= seq![r.current_path@]);
        r
    }

    /// Invalidate the directory cache
    pub fn invalidate_cache(&mut self)
        ensures
            *final(self) == (AssetBrowserState {
                cached_entries: None,
                cached_path: None,
                ..*old(self)
            }),
    {
        self.cached_entries = None;
        self.cached_path = None;
    }

    /// The cached directory entries, when they were read for the current path.
    pub fn cached_listing(&self) -> (r: Option<&Vec<FileEntry>>)
        ensures
            match (self.cached_path, self.cached_entries) {
                (Some(p), Some(e)) => if p@ == self.current_path@ {
                    r == Some(&e)
                } else {
                    r is None
                },
                _ => r is None,
            },
    {
        match (&self.cached_path, &self.cached_entries) {
            (Some(p), Some(e)) => if str_equal(p.as_str(), self.current_path.as_str()) {
                Some(e)
            } else {
                None
            },
            _ => None,
        }
    }

    /// Remember the entries read for the current path.
    pub fn cache_listing(&mut self, entries: Vec<FileEntry>)
        ensures
            *final(self) == (AssetBrowserState {
                cached_entries: Some(entries),
                cached_path: final(self).cached_path,
                ..*old(self)
            }),
            final(self).cached_path matches Some(p) && p@ == old(self).current_path@,
    {
        self.cached_entries = Some(entries);
        self.cached_path = Some(self.current_path.clone());
    }

    /// Navigate to a new path: when it is a directory other than the current
    /// one, the forward history is dropped, the path is appended and becomes
    /// current, the selection is cleared and the cache invalidated. Whether the
    /// path is a directory is asked of the file system by the caller.
    pub fn navigate_to(&mut self, path: String, path_is_dir: bool)
        requires
            old(self).wf(),
        ensures
            final(self).wf(),
            (path_is_dir && path@ != old(self).current_path@) ==> {
                &&& final(self).history_view() == old(self).history_view().subrange(
                    0,
                    old(self).history_index + 1,
                ).push(path@)
                &&& final(self).history_index == old(self).history_index + 1
                &&& final(self).current_path@ == path@
                &&& final(self).selected_file is None
                &&& final(self).cached_entries is None
                &&& final(self).cached_path is None
            },
            !(path_is_dir && path@ != old(self).current_path@) ==> *final(self) == *old(self),
            final(self).filter == old(self).filter,
            final(self).sort_order == old(self).sort_order,
            final(self).view_mode == old(self).view_mode,
    {
        if path_is_dir && !str_equal(path.as_str(), self.current_path.as_str()) {
            let ghost before = self.history_view();
            let n = self.history.len();
            assert(self.history_index < n);
            self.history.truncate(self.history_index + 1);
            let copy = path.clone();
            self.history.push(copy);
            self.history_index = self.history.len() - 1;
            self.current_path = path;
            self.selected_file = None;
            self.invalidate_cache();
            assert(self.history_view() =~= before.subrange(0, old(self).history_index + 1).push(
                self.current_path@,
            ));
        }
    }

    /// Go back in history
    pub fn go_back(&mut self)
        requires
            old(self).wf(),
        ensures
            final(self).wf(),
            final(self).history == old(self).history,
            old(self).history_index > 0 ==> {
                &&& final(self).history_index == old(self).history_index - 1
                &&& final(self).current_path@ == old(self).history_view()[old(self).history_index - 1]
                &&& final(self).selected_file is None
                &&& final(self).cached_entries is None
                &&& final(self).cached_path is None
            },
            old(self).history_index == 0 ==> *final(self) == *old(self),
            final(self).filter == old(self).filter,
            final(self).sort_order == old(self).sort_order,
            final(self).view_mode == old(self).view_mode,
    {
        if self.history_index > 0 {
            self.history_index = self.history_index - 1;
            self.current_path = self.history[self.history_index].clone();
            self.selected_file = None;
            self.invalidate_cache();
        }
    }

    /// Go forward in history
    pub fn go_forward(&mut self)
        requires
            old(self).wf(),
        ensures
            final(self).wf(),
            final(self).history == old(self).history,
            old(self).history_index + 1 < old(self).history@.len() ==> {
                &&& final(self).history_index == old(self).history_index + 1
                &&& final(self).current_path@ == old(self).history_view()[old(self).history_index + 1]
                &&& final(self).selected_file is None
                &&& final(self).cached_entries is None
                &&& final(self).cached_path is None
            },
            old(self).history_index + 1 >= old(self).history@.len() ==> *final(self) == *old(self),
            final(self).filter == old(self).filter,
            final(self).sort_order == old(self).sort_order,
            final(self).view_mode == old(self).view_mode,
    {
        if self.history_index < self.history.len() - 1 {
            self.history_index = self.history_index + 1;
            self.current_path = self.history[self.history_index].clone();
            self.selected_file = None;
            self.invalidate_cache();
        }
    }

    /// Go up one directory: navigate to the parent of the current path, if it
    /// has one. The parent and whether it is a directory are found by the caller.
    pub fn go_up(&mut self, parent: Option<String>, parent_is_dir: bool)
        requires
            old(self).wf(),
        ensures
            final(self).wf(),
            match parent {
                Some(p) => (parent_is_dir && p@ != old(self).current_path@) ==> {
                    &&& final(self).history_view() == old(self).history_view().subrange(
                        0,
                        old(self).history_index + 1,
                    ).push(p@)
                    &&& final(self).history_index == old(self).history_index + 1
                    &&& final(self).current_path@ == p@
                },
                None => *final(self) == *old(self),
            },
            (parent matches Some(p) && !(parent_is_dir && p@ != old(self).current_path@))
                ==> *final(self) == *old(self),
    {
        match parent {
            Some(p) => self.navigate_to(p, parent_is_dir),
            None => {},
        }
    }
}

/// Going forward right after going back returns to the directory the browser
/// showed before, with the history unchanged.
pub proof fn law_forward_after_back(
    before: AssetBrowserState,
    back: AssetBrowserState,
    forward: AssetBrowserState,
)
    requires
        before.wf(),
        back.wf(),
        forward.wf(),
        before.history_index > 0,
        back.history == before.history,
        back.history_index == before.history_index - 1,
        forward.history == back.history,
        forward.history_index == back.history_index + 1,
    ensures
        back.history_index + 1 < back.history@.len(),
        forward.current_path@ == before.current_path@,
        forward.history_index == before.history_index,
{
}

/// Going back after moving to a new directory returns to the directory the
/// browser showed before, and going forward again returns to the new one.
pub proof fn law_back_after_navigate(before: AssetBrowserState, after: AssetBrowserState, path: Seq<char>)
    requires
        before.wf(),
        after.wf(),
        after.history_view() == before.history_view().subrange(0, before.history_index + 1).push(path),
        after.history_index == before.history_index + 1,
    ensures
        after.history_view()[after.history_index - 1] == before.current_path@,
        after.history_view()[after.history_index as int] == path,
        after.history_index + 1 == after.history@.len(),
{
    assert(after.history_view().len() == after.history@.len());
    assert(before.history_view()[before.history_index as int] == before.current_path@);
}

/// 2 to the power `k`.
pub open spec fn pow2(k: nat) -> nat
    decreases k,
{
    if k == 0 { 1 } else { 2 * pow2((k - 1) as nat) }
}

/// How many low bits of `n` fall outside the 53-bit precision of an `f64`.
pub open spec fn excess_bits(n: nat) -> nat
    decreases n,
{
    if n < 0x20_0000_0000_0000 { 0 } else { 1 + excess_bits(n / 2) }
}

/// `num / den` rounded to the nearest integer, ties to the even one.
pub open spec fn round_half_even(num: nat, den: nat) -> nat
    recommends
        den > 0,
{
    let q = num / den;
    let r = num % den;
    if 2 * r > den || (2 * r == den && q % 2 == 1) { q + 1 } else { q }
}

/// The value of the `f64` nearest to `n` (what `n as f64` holds).
pub open spec fn f64_value(n: nat) -> nat {
    let unit = pow2(excess_bits(n));
    round_half_even(n, unit) * unit
}

/// `value / unit` in tenths, rounded to the nearest tenth with ties to even
/// (how `{:.1}` prints it), followed by the unit name.
pub open spec fn one_decimal(value: nat, unit: nat, suffix: Seq<char>) -> Seq<char> {
    let tenths = round_half_even(value * 10, unit);
    decimal_digits(tenths / 10) + seq!['.'] + seq![digit_char((tenths % 10) as int)] + suffix
}

/// How `format_size` writes a byte count: whole bytes below 1 KiB, otherwise
/// KB, MB or GB (powers of 1024) with one decimal.
pub open spec fn spec_format_size(size: u64) -> Seq<char> {
    if size < 1024 {
        decimal_digits(size as nat) + " B"@
    } else if size < 1024 * 1024 {
        one_decimal(size as nat, 1024, " KB"@)
    } else if size < 1024 * 1024 * 1024 {
        one_decimal(size as nat, 1024 * 1024, " MB"@)
    } else {
        one_decimal(f64_value(size as nat), 1024 * 1024 * 1024, " GB"@)
    }
}

fn exec_round_half_even(num: u128, den: u128) -> (r: u128)
    requires
        den > 0,
        den <= 0x1_0000_0000_0000_0000u128,
        num < 0x1_0000_0000_0000_0000_0000u128,
    ensures
        r == round_half_even(num as nat, den as nat),
{
    let q = num / den;
    let rem = num % den;
    if 2 * rem > den || (2 * rem == den && q % 2 == 1) {
        q + 1
    } else {
        q
    }
}

/// `n as f64`, as an integer (`n` rounded to 53 significant bits, ties to even).
fn exec_f64_value(n: u64) -> (r: u128)
    ensures
        r == f64_value(n as nat),
        r <= 2 * 0x1_0000_0000_0000_0000u128,
{
    let mut k: u64 = 0;
    let mut m: u64 = n;
    let mut unit: u128 = 1;
    while m >= 0x20_0000_0000_0000
        invariant
            excess_bits(n as nat) == k + excess_bits(m as nat),
            unit == pow2(k as nat),
            1 <= unit,
            k as nat <= unit,
            unit <= n as nat + 1,
            m as nat * unit <= n,
            n < m as nat * unit + unit,
        decreases m,
    {
        assert((m as nat / 2) * (unit * 2) <= n && n < (m as nat / 2) * (unit * 2) + unit * 2)
            by (nonlinear_arith)
            requires
                m as nat * unit <= n,
                n < m as nat * unit + unit,
        {
            assert(m as nat == (m as nat / 2) * 2 + m as nat % 2);
        }
        assert(unit * 2 <= n) by (nonlinear_arith)
            requires
                m as nat / 2 >= 1,
                (m as nat / 2) * (unit * 2) <= n,
                unit >= 1,
        ;
        m = m / 2;
        k = k + 1;
        unit = unit * 2;
    }
    let q = exec_round_half_even(n as u128, unit);
    proof {
        let qq = (n as nat) / (unit as nat);
        assert(qq * unit <= n && q * unit <= n + unit) by (nonlinear_arith)
            requires
                unit >= 1,
                qq == (n as nat) / (unit as nat),
                q <= qq + 1,
        {
            assert(n as nat == qq * unit + (n as nat) % (unit as nat));
        }
    }
    q * unit
}

/// Format file size for display
pub fn format_size(size: u64) -> (r: String)
    ensures
        r@ == spec_format_size(size),
{
    let mut out = String::new();
    if size < 1024 {
        push_decimal(&mut out, size);
        out.append(" B");
        proof {
            reveal_strlit(" B");
        }
        assert(out@ =~= spec_format_size(size));
        return out;
    }
    let (value, unit, suffix): (u128, u128, &str) = if size < 1024 * 1024 {
        (size as u128, 1024, " KB")
    } else if size < 1024 * 1024 * 1024 {
        (size as u128, 1024 * 1024, " MB")
    } else {
        (exec_f64_value(size), 1024 * 1024 * 1024, " GB")
    };
    let tenths = exec_round_half_even(value * 10, unit);
    proof {
        let num = value as nat * 10;
        let qq = num / (unit as nat);
        assert(qq * 1024 <= num) by (nonlinear_arith)
            requires
                unit >= 1024,
                qq == num / (unit as nat),
        {
            assert(num == qq * unit + num % (unit as nat));
        }
        assert(tenths <= qq + 1);
    }
    push_decimal(&mut out, (tenths / 10) as u64);
    push_char(&mut out, '.');
    let d = (tenths % 10) as u8;
    push_char(&mut out, (48 + d) as char);
    out.append(suffix);
    proof {
        reveal_strlit(" KB");
        reveal_strlit(" MB");
        reveal_strlit(" GB");
    }
    assert(out@ =~= spec_format_size(size));
    out
}

/// The extensions named in a comma-separated list: each piece trimmed of
/// whitespace and of its leading dots, empty ones dropped, in order.
pub open spec fn extension_list(pieces: Seq<Seq<char>>) -> Seq<Seq<char>>
    decreases pieces.len(),
{
    if pieces.len() == 0 {
        Seq::empty()
    } else {
        let rest = extension_list(pieces.drop_last());
        let e = strip_leading(trim(pieces.last()), '.');
        if e.len() > 0 {
            rest.push(e)
        } else {
            rest
        }
    }
}

/// `s[from..]` without its leading occurrences of `c`: the first position
/// not holding `c`.
pub(crate) fn skip_leading(s: &[char], from: usize, to: usize, c: char) -> (r: usize)
    requires
        from <= to <= s@.len(),
    ensures
        from <= r <= to,
        s@.subrange(r as int, to as int) == strip_leading(s@.subrange(from as int, to as int), c),
    decreases to - from,
{
    if from < to && s[from] == c {
        let r = skip_leading(s, from + 1, to, c);
        proof {
            let t = s@.subrange(from as int, to as int);
            assert(t.drop_first() =~= s@.subrange(from + 1, to as int));
        }
        r
    } else {
        proof {
            let t = s@.subrange(from as int, to as int);
            if from < to {
                assert(t[0] == s@[from as int]);
            }
        }
        from
    }
}

/// The extensions of a comma-separated list such as ".png, jpg": each piece
/// trimmed of whitespace and leading dots, empty ones dropped.
pub fn parse_custom_extensions(list: &str) -> (r: Vec<String>)
    ensures
        r@.map_values(|e: String| e@) == extension_list(split_char(list@, ',')),
{
    let chars = to_chars(list);
    let pieces = split_chars(&chars, ',');
    let ghost views = pieces@.map_values(|v: Vec<char>| v@);
    let mut out: Vec<String> = Vec::new();
    let mut i: usize = 0;
    while i < pieces.len()
        invariant
            i <= pieces@.len(),
            views == pieces@.map_values(|v: Vec<char>| v@),
            views == split_char(list@, ','),
            out@.map_values(|e: String| e@) == extension_list(views.take(i as int)),
        decreases pieces@.len() - i,
    {
        let piece = &pieces[i];
        let (a, b) = trim_bounds(piece.as_slice(), 0, piece.len());
        let start = skip_leading(piece.as_slice(), a, b, '.');
        proof {
            assert(piece@.subrange(0, piece@.len() as int) =~= piece@);
            assert(views.take(i + 1).drop_last() =~= views.take(i as int));
            assert(views.take(i + 1).last() == piece@);
        }
        if start < b {
            let e = string_from_range(piece.as_slice(), start, b);
            let ghost before = out@.map_values(|e: String| e@);
            out.push(e);
            assert(out@.map_values(|e: String| e@) =~= before.push(e@));
        }
        i = i + 1;
    }
    assert(views.take(i as int) =~= views);
    out
}

/// Whether any of `exts` equals `ext` ignoring ASCII case.
pub open spec fn matches_any_extension(exts: Seq<Seq<char>>, ext: Seq<char>) -> bool {
    exists|i: int| 0 <= i < exts.len() && eq_ignore_ascii_case(#[trigger] exts[i], ext)
}

/// Whether the browser shows an entry: folders when folders are shown; a file
/// when it matches a checked file kind or a custom extension (or no kind is
/// checked and no extension is listed), and its lowercase name contains the
/// lowercase search text.
pub open spec fn entry_shown(filter: FileFilter, exts: Seq<Seq<char>>, search: Seq<char>, e: FileEntry) -> bool {
    if e.is_dir {
        filter.show_folders
    } else {
        let type_match = (filter.show_images && e.spec_is_image()) || (filter.show_audio
            && e.spec_is_audio()) || (filter.show_json && e.spec_is_json());
        let custom_match = exts.len() > 0 && match e.extension {
            Some(x) => matches_any_extension(exts, x@),
            None => false,
        };
        let search_match = search.len() == 0 || contains_seq(e.name_lower@, search);
        (type_match || custom_match || (exts.len() == 0 && !filter.show_images
            && !filter.show_audio && !filter.show_json)) && search_match
    }
}

/// The entries the browser shows, in their order.
pub open spec fn shown_entries(
    filter: FileFilter,
    exts: Seq<Seq<char>>,
    search: Seq<char>,
    entries: Seq<FileEntry>,
) -> Seq<FileEntry>
    decreases entries.len(),
{
    if entries.len() == 0 {
        Seq::empty()
    } else {
        let rest = shown_entries(filter, exts, search, entries.drop_last());
        if entry_shown(filter, exts, search, entries.last()) {
            rest.push(entries.last())
        } else {
            rest
        }
    }
}

/// The extension used to order entries by type (none counts as empty).
pub open spec fn type_key(e: FileEntry) -> Seq<char> {
    match e.extension {
        Some(x) => x@,
        None => Seq::empty(),
    }
}

/// Whether entry `a` is listed strictly before entry `b`: folders first, then
/// by the sort order (lowercase name; size; extension then name; name).
pub open spec fn entry_before(order: SortOrder, a: FileEntry, b: FileEntry) -> bool {
    if a.is_dir != b.is_dir {
        a.is_dir
    } else {
        match order {
            SortOrder::Name => seq_lt(a.name_lower@, b.name_lower@),
            SortOrder::Size => a.size < b.size,
            SortOrder::Type => seq_lt(type_key(a), type_key(b)) || (type_key(a) == type_key(b)
                && seq_lt(a.name@, b.name@)),
            SortOrder::Date => seq_lt(a.name@, b.name@),
        }
    }
}

/// Where a stable insertion puts `x` into `sorted`: before the first entry
/// that `x` comes strictly before.
pub open spec fn insertion_point(order: SortOrder, sorted: Seq<FileEntry>, x: FileEntry) -> int
    decreases sorted.len(),
{
    if sorted.len() == 0 {
        0
    } else if entry_before(order, x, sorted[0]) {
        0
    } else {
        1 + insertion_point(order, sorted.drop_first(), x)
    }
}

/// The entries in the order a stable sort by `entry_before` gives: each entry
/// in turn goes after every earlier one it does not come strictly before.
pub open spec fn sorted_entries(order: SortOrder, entries: Seq<FileEntry>) -> Seq<FileEntry>
    decreases entries.len(),
{
    if entries.len() == 0 {
        Seq::empty()
    } else {
        let rest = sorted_entries(order, entries.drop_last());
        rest.insert(insertion_point(order, rest, entries.last()), entries.last())
    }
}

proof fn lemma_insertion_point_bounds(order: SortOrder, sorted: Seq<FileEntry>, x: FileEntry)
    ensures
        0 <= insertion_point(order, sorted, x) <= sorted.len(),
    decreases sorted.len(),
{
    if sorted.len() > 0 && !entry_before(order, x, sorted[0]) {
        lemma_insertion_point_bounds(order, sorted.drop_first(), x);
    }
}

proof fn lemma_sorted_len(order: SortOrder, entries: Seq<FileEntry>)
    ensures
        sorted_entries(order, entries).len() == entries.len(),
    decreases entries.len(),
{
    if entries.len() > 0 {
        lemma_sorted_len(order, entries.drop_last());
        lemma_insertion_point_bounds(order, sorted_entries(order, entries.drop_last()), entries.last());
    }
}

/// Whether entry `a` is listed strictly before entry `b`.
fn entry_is_before(order: SortOrder, a: &FileEntry, b: &FileEntry) -> (r: bool)
    ensures
        r == entry_before(order, *a, *b),
{
    if a.is_dir != b.is_dir {
        return a.is_dir;
    }
    match order {
        SortOrder::Name => {
            let x = to_chars(a.name_lower.as_str());
            let y = to_chars(b.name_lower.as_str());
            chars_less(&x, &y)
        },
        SortOrder::Size => a.size < b.size,
        SortOrder::Type => {
            let ea: Vec<char> = match &a.extension {
                Some(e) => to_chars(e.as_str()),
                None => Vec::new(),
            };
            let eb: Vec<char> = match &b.extension {
                Some(e) => to_chars(e.as_str()),
                None => Vec::new(),
            };
            if chars_less(&ea, &eb) {
                true
            } else if crate::text::chars_equal(&ea, &eb) {
                let x = to_chars(a.name.as_str());
                let y = to_chars(b.name.as_str());
                chars_less(&x, &y)
            } else {
                false
            }
        },
        SortOrder::Date => {
            let x = to_chars(a.name.as_str());
            let y = to_chars(b.name.as_str());
            chars_less(&x, &y)
        },
    }
}

/// Whether an entry passes the filter (see `entry_shown`).
fn entry_passes(filter: &FileFilter, exts: &Vec<String>, search: &Vec<char>, e: &FileEntry) -> (r: bool)
    ensures
        r == entry_shown(*filter, exts@.map_values(|x: String| x@), search@, *e),
{
    let ghost ext_views = exts@.map_values(|x: String| x@);
    if e.is_dir {
        return filter.show_folders;
    }
    let type_match = (filter.show_images && e.is_image()) || (filter.show_audio && e.is_audio())
        || (filter.show_json && e.is_json());
    let mut custom_match = false;
    if exts.len() > 0 {
        if let Some(x) = &e.extension {
            let xc = to_chars(x.as_str());
            let mut i: usize = 0;
            while i < exts.len() && !custom_match
                invariant
                    i <= exts@.len(),
                    ext_views == exts@.map_values(|x: String| x@),
                    xc@ == x@,
                    custom_match ==> matches_any_extension(ext_views, x@),
                    !custom_match ==> forall|j: int| 0 <= j < i ==> !eq_ignore_ascii_case(#[trigger] ext_views[j], x@),
                decreases exts@.len() - i,
            {
                let ec = to_chars(exts[i].as_str());
                if chars_eq_ignore_ascii_case(&ec, &xc) {
                    assert(eq_ignore_ascii_case(ext_views[i as int], x@));
                    custom_match = true;
                }
                i = i + 1;
            }
        }
    }
    let name_chars = to_chars(e.name_lower.as_str());
    let search_match = search.len() == 0 || chars_contain(&name_chars, search);
    (type_match || custom_match || (exts.len() == 0 && !filter.show_images && !filter.show_audio
        && !filter.show_json)) && search_match
}

/// The insertion point is the first entry that `x` comes strictly before.
proof fn lemma_insertion_point_at(order: SortOrder, sorted: Seq<FileEntry>, x: FileEntry, k: int)
    requires
        0 <= k <= sorted.len(),
        forall|j: int| 0 <= j < k ==> !entry_before(order, x, #[trigger] sorted[j]),
        k < sorted.len() ==> entry_before(order, x, sorted[k]),
    ensures
        insertion_point(order, sorted, x) == k,
    decreases k,
{
    if k > 0 {
        let t = sorted.drop_first();
        assert forall|j: int| 0 <= j < k - 1 implies !entry_before(order, x, #[trigger] t[j]) by {
            assert(t[j] == sorted[j + 1]);
        }
        if k < sorted.len() {
            assert(t[k - 1] == sorted[k]);
        }
        lemma_insertion_point_at(order, t, x, k - 1);
        assert(!entry_before(order, x, sorted[0]));
    }
}

/// Inserts `x` into `sorted` at its stable insertion point.
fn insert_entry(order: SortOrder, sorted: &mut Vec<FileEntry>, x: FileEntry)
    ensures
        final(sorted)@ == old(sorted)@.insert(insertion_point(order, old(sorted)@, x), x),
{
    let mut k: usize = 0;
    while k < sorted.len() && !entry_is_before(order, &x, &sorted[k])
        invariant
            k <= sorted@.len(),
            sorted@ == old(sorted)@,
            forall|j: int| 0 <= j < k ==> !entry_before(order, x, #[trigger] sorted@[j]),
        decreases sorted@.len() - k,
    {
        k = k + 1;
    }
    proof {
        lemma_insertion_point_at(order, sorted@, x, k as int);
    }
    sorted.insert(k, x);
}

impl AssetBrowserState {
    /// The entries the browser lists for `entries`: those that pass the filter
    /// (see `entry_shown`, with the custom extension list parsed and the search
    /// text lowercased), folders first and then in the sort order; entries that
    /// tie keep their order.
    pub fn filter_and_sort(&self, entries: Vec<FileEntry>) -> (r: Vec<FileEntry>)
        ensures
            r@ == sorted_entries(
                self.sort_order,
                shown_entries(
                    self.filter,
                    extension_list(split_char(self.filter.custom_extensions@, ',')),
                    lowercase(self.filter.search_text@),
                    entries@,
                ),
            ),
    {
        let search_lower = to_lowercase(self.filter.search_text.as_str());
        self.filter_and_sort_with_search(entries, search_lower.as_str())
    }

    /// The entries the browser lists for `entries` when the lowercased search
    /// text is `search_lower`: those that pass the filter (see `entry_shown`,
    /// with the custom extension list parsed), folders first and then in the
    /// sort order; entries that tie keep their order.
    pub fn filter_and_sort_with_search(&self, entries: Vec<FileEntry>, search_lower: &str) -> (r: Vec<FileEntry>)
        ensures
            r@ == sorted_entries(
                self.sort_order,
                shown_entries(
                    self.filter,
                    extension_list(split_char(self.filter.custom_extensions@, ',')),
                    search_lower@,
                    entries@,
                ),
            ),
    {
        let search = to_chars(search_lower);
        let exts = parse_custom_extensions(self.filter.custom_extensions.as_str());
        let ghost ext_views = exts@.map_values(|x: String| x@);
        let ghost all = entries@;
        let mut rest = entries;
        let mut kept: Vec<FileEntry> = Vec::new();
        let mut i: usize = 0;
        let n = rest.len();
        while rest.len() > 0
            invariant
                n == all.len(),
                i <= n,
                rest@ == all.subrange(i as int, n as int),
                kept@ == shown_entries(self.filter, ext_views, search@, all.take(i as int)),
                ext_views == exts@.map_values(|x: String| x@),
            decreases rest@.len(),
        {
            let e = rest.remove(0);
            proof {
                assert(e == all[i as int]);
                assert(all.take(i + 1).drop_last() =~= all.take(i as int));
                assert(all.take(i + 1).last() == e);
            }
            if entry_passes(&self.filter, &exts, &search, &e) {
                kept.push(e);
            }
            i = i + 1;
            assert(rest@ =~= all.subrange(i as int, n as int));
        }
        assert(all.take(i as int) =~= all);
        let ghost shown = kept@;
        let mut out: Vec<FileEntry> = Vec::new();
        let mut j: usize = 0;
        let m = kept.len();
        while kept.len() > 0
            invariant
                m == shown.len(),
                j <= m,
                kept@ == shown.subrange(j as int, m as int),
                out@ == sorted_entries(self.sort_order, shown.take(j as int)),
            decreases kept@.len(),
        {
            let e = kept.remove(0);
            proof {
                assert(e == shown[j as int]);
                assert(shown.take(j + 1).drop_last() =~= shown.take(j as int));
                assert(shown.take(j + 1).last() == e);
            }
            insert_entry(self.sort_order, &mut out, e);
            j = j + 1;
            assert(kept@ =~= shown.subrange(j as int, m as int));
        }
        assert(shown.take(j as int) =~= shown);
        out
    }
}

proof fn lemma_entry_before_transitive(order: SortOrder, a: FileEntry, b: FileEntry, c: FileEntry)
    requires
        entry_before(order, a, b),
        entry_before(order, b, c),
    ensures
        entry_before(order, a, c),
{
    if a.is_dir == b.is_dir && b.is_dir == c.is_dir {
        match order {
            SortOrder::Name => lemma_seq_lt_transitive(a.name_lower@, b.name_lower@, c.name_lower@),
            SortOrder::Size => {},
            SortOrder::Type => {
                if seq_lt(type_key(a), type_key(b)) && seq_lt(type_key(b), type_key(c)) {
                    lemma_seq_lt_transitive(type_key(a), type_key(b), type_key(c));
                } else if type_key(a) == type_key(b) && type_key(b) == type_key(c) {
                    lemma_seq_lt_transitive(a.name@, b.name@, c.name@);
                }
            },
            SortOrder::Date => lemma_seq_lt_transitive(a.name@, b.name@, c.name@),
        }
    }
}

proof fn lemma_entry_before_asymmetric(order: SortOrder, a: FileEntry, b: FileEntry)
    requires
        entry_before(order, a, b),
    ensures
        !entry_before(order, b, a),
{
    if a.is_dir == b.is_dir {
        match order {
            SortOrder::Name => lemma_seq_lt_asymmetric(a.name_lower@, b.name_lower@),
            SortOrder::Size => {},
            SortOrder::Type => {
                if seq_lt(type_key(a), type_key(b)) {
                    lemma_seq_lt_asymmetric(type_key(a), type_key(b));
                } else {
                    lemma_seq_lt_asymmetric(a.name@, b.name@);
                }
            },
            SortOrder::Date => lemma_seq_lt_asymmetric(a.name@, b.name@),
        }
    }
}

/// The insertion point comes after every entry that `x` does not precede
/// and at an entry that `x` precedes (or at the end).
proof fn lemma_insertion_point_props(order: SortOrder, sorted: Seq<FileEntry>, x: FileEntry)
    ensures
        forall|j: int|
            0 <= j < insertion_point(order, sorted, x) ==> !entry_before(order, x, #[trigger] sorted[j]),
        insertion_point(order, sorted, x) < sorted.len() ==> entry_before(
            order,
            x,
            sorted[insertion_point(order, sorted, x)],
        ),
    decreases sorted.len(),
{
    lemma_insertion_point_bounds(order, sorted, x);
    if sorted.len() > 0 && !entry_before(order, x, sorted[0]) {
        let t = sorted.drop_first();
        lemma_insertion_point_props(order, t, x);
        assert forall|j: int| 0 <= j < insertion_point(order, sorted, x) implies !entry_before(
            order,
            x,
            #[trigger] sorted[j],
        ) by {
            if j > 0 {
                assert(sorted[j] == t[j - 1]);
            }
        }
        lemma_insertion_point_bounds(order, t, x);
        assert(insertion_point(order, sorted, x) == 1 + insertion_point(order, t, x));
        if insertion_point(order, sorted, x) < sorted.len() {
            assert(sorted[insertion_point(order, sorted, x)] == t[insertion_point(order, t, x)]);
        }
    }
}

/// Whether no entry of `s` comes strictly before an entry listed ahead of it.
pub open spec fn entries_ordered(order: SortOrder, s: Seq<FileEntry>) -> bool {
    forall|i: int, j: int| 0 <= i < j < s.len() ==> !entry_before(order, #[trigger] s[j], #[trigger] s[i])
}

/// The browser lists entries in order: folders before files, and within each
/// group no entry comes after one it sorts strictly before.
pub proof fn law_listing_ordered(order: SortOrder, entries: Seq<FileEntry>)
    ensures
        entries_ordered(order, sorted_entries(order, entries)),
    decreases entries.len(),
{
    if entries.len() > 0 {
        let rest = sorted_entries(order, entries.drop_last());
        let x = entries.last();
        law_listing_ordered(order, entries.drop_last());
        lemma_insertion_point_props(order, rest, x);
        lemma_insertion_point_bounds(order, rest, x);
        let k = insertion_point(order, rest, x);
        let t = rest.insert(k, x);
        assert forall|i: int, j: int| 0 <= i < j < t.len() implies !entry_before(
            order,
            #[trigger] t[j],
            #[trigger] t[i],
        ) by {
            if j < k {
                assert(t[i] == rest[i] && t[j] == rest[j]);
            } else if j == k {
                assert(t[i] == rest[i]);
                assert(!entry_before(order, x, rest[i]));
            } else if i == k {
                assert(t[j] == rest[j - 1]);
                if entry_before(order, rest[j - 1], x) {
                    lemma_entry_before_transitive(order, rest[j - 1], x, rest[k]);
                    if j - 1 == k {
                        lemma_entry_before_asymmetric(order, rest[k], rest[k]);
                    } else {
                        assert(!entry_before(order, rest[j - 1], rest[k]));
                    }
                }
            } else if i < k {
                assert(t[i] == rest[i] && t[j] == rest[j - 1]);
            } else {
                assert(t[i] == rest[i - 1] && t[j] == rest[j - 1]);
            }
        }
    }
}

/// The browser lists each shown entry exactly once: listing permutes them.
pub proof fn law_listing_permutes(order: SortOrder, entries: Seq<FileEntry>)
    ensures
        sorted_entries(order, entries).to_multiset() == entries.to_multiset(),
    decreases entries.len(),
{
    if entries.len() > 0 {
        let rest = sorted_entries(order, entries.drop_last());
        let x = entries.last();
        assert(entries.drop_last().push(x) =~= entries);
        law_listing_permutes(order, entries.drop_last());
        lemma_insertion_point_bounds(order, rest, x);
        vstd::seq_lib::to_multiset_insert(rest, insertion_point(order, rest, x), x);
        vstd::seq_lib::to_multiset_build(entries.drop_last(), x);
        assert(sorted_entries(order, entries).to_multiset() =~= entries.to_multiset());
    } else {
        assert(entries =~= Seq::<FileEntry>::empty());
    }
}

} // verus!
