//! Asset paths: turning a path saved by the editor into a path relative to
//! the game's assets directory.

use vstd::prelude::*;
use crate::text::{
    ascii_lower, char_ascii_lower, eq_ignore_ascii_case, find, occurs_at, spec_find, string_from_range, to_chars,
};
use crate::ids::Uuid;
use crate::project::{MapProject, image_paths_for, path_views, strictly_increasing, tile_layer_ids};
use crate::tileset::{Tileset, TilesetImage};

verus! {

/// `s` with every backslash replaced by a forward slash.
pub open spec fn forward_slashes(s: Seq<char>) -> Seq<char> {
    s.map_values(|c: char| if c == '\\' { '/' } else { c })
}

/// Whether `pat` occurs in `s` at position `i`, ASCII letters compared
/// without regard to case.
pub open spec fn occurs_at_ignore_case(s: Seq<char>, pat: Seq<char>, i: int) -> bool {
    0 <= i && i + pat.len() <= s.len() && eq_ignore_ascii_case(s.subrange(i, i + pat.len()), pat)
}

/// The first position at which `pat` occurs in `s` ignoring ASCII case.
pub open spec fn first_occurrence_ignore_case(s: Seq<char>, pat: Seq<char>) -> Option<int> {
    if exists|i: int| occurs_at_ignore_case(s, pat, i) {
        Some(
            choose|i: int|
                occurs_at_ignore_case(s, pat, i) && forall|j: int|
                    0 <= j < i ==> !occurs_at_ignore_case(s, pat, j),
        )
    } else {
        None
    }
}

/// The asset path for a saved path: separators made forward slashes, then
/// everything after the first "/assets/" (in any letter case); failing that,
/// the path without a leading "assets/"; failing that, the path itself.
pub open spec fn asset_relative_path(path: Seq<char>) -> Seq<char> {
    let n = forward_slashes(path);
    match first_occurrence_ignore_case(n, "/assets/"@) {
        Some(i) => n.subrange(i + 8, n.len() as int),
        None => if occurs_at_ignore_case(n, "assets/"@, 0) {
            n.subrange(7, n.len() as int)
        } else {
            n
        },
    }
}

/// Whether `pat` occurs in `s` at `i` ignoring ASCII case.
fn matches_at_ignore_case(s: &Vec<char>, pat: &Vec<char>, i: usize) -> (r: bool)
    ensures
        r == occurs_at_ignore_case(s@, pat@, i as int),
{
    if i > s.len() || pat.len() > s.len() - i {
        return false;
    }
    let len = s.len();
    let mut k: usize = 0;
    while k < pat.len()
        invariant
            len == s@.len(),
            i + pat@.len() <= s@.len(),
            k <= pat@.len(),
            forall|j: int| 0 <= j < k ==> ascii_lower(#[trigger] s@[i + j]) == ascii_lower(pat@[j]),
        decreases pat@.len() - k,
    {
        assert(i + k < s@.len());
        if char_ascii_lower(s[i + k]) != char_ascii_lower(pat[k]) {
            assert(s@.subrange(i as int, i + pat@.len())[k as int] == s@[i + k]);
            return false;
        }
        k = k + 1;
    }
    proof {
        let sub = s@.subrange(i as int, i + pat@.len());
        assert forall|j: int| 0 <= j < sub.len() implies ascii_lower(#[trigger] sub[j]) == ascii_lower(pat@[j]) by {
            assert(sub[j] == s@[i + j]);
        }
    }
    true
}

/// Convert a saved file path to a path relative to the assets directory.
pub fn normalize_asset_path(path: &str) -> (r: String)
    ensures
        r@ == asset_relative_path(path@),
{
    let raw = to_chars(path);
    let mut n: Vec<char> = Vec::new();
    let mut i: usize = 0;
    while i < raw.len()
        invariant
            i <= raw@.len(),
            raw@ == path@,
            n@ == forward_slashes(raw@.take(i as int)),
        decreases raw@.len() - i,
    {
        let c = raw[i];
        n.push(if c == '\\' { '/' } else { c });
        i = i + 1;
        assert(n@ =~= forward_slashes(raw@.take(i as int)));
    }
    assert(raw@.take(i as int) =~= raw@);
    let marker = to_chars("/assets/");
    let prefix = to_chars("assets/");
    proof {
        reveal_strlit("/assets/");
        reveal_strlit("assets/");
    }
    assert(marker@.len() == 8 && prefix@.len() == 7);
    let mut j: usize = 0;
    while j < n.len()
        invariant
            j <= n@.len(),
            marker@ == "/assets/"@,
            marker@.len() == 8,
            n@ == forward_slashes(path@),
            forall|q: int| 0 <= q < j ==> !occurs_at_ignore_case(n@, marker@, q),
        decreases n@.len() + 1 - j,
    {
        if matches_at_ignore_case(&n, &marker, j) {
            proof {
                let w = choose|w: int|
                    occurs_at_ignore_case(n@, marker@, w) && forall|q: int|
                        0 <= q < w ==> !occurs_at_ignore_case(n@, marker@, q);
                if w < j {
                } else if w > j {
                    assert(!occurs_at_ignore_case(n@, marker@, j as int));
                }
            }
            return string_from_range(&n, j + 8, n.len());
        }
        j = j + 1;
    }
    assert forall|q: int| !occurs_at_ignore_case(n@, marker@, q) by {
        if 0 <= q && q < j {
        }
    }
    if matches_at_ignore_case(&n, &prefix, 0) {
        string_from_range(&n, 7, n.len())
    } else {
        string_from_range(&n, 0, n.len())
    }
}

/// Where a file outside the source assets directory lands under the game's
/// assets directory: what follows the first "assets/" in its path, or failing
/// that the first "assets" followed by a backslash; `None` when the path
/// holds neither.
pub open spec fn after_assets_dir(path: Seq<char>) -> Option<Seq<char>> {
    match spec_find(path, "assets/"@) {
        Some(k) => Some(path.skip(k + 7)),
        None => match spec_find(path, "assets\\"@) {
            Some(k) => Some(path.skip(k + 7)),
            None => None,
        },
    }
}

/// The part of a path after its first "assets/" (or, failing that, its first
/// "assets" followed by a backslash), used to place a copied file in the
/// game's assets directory.
pub fn path_after_assets(path: &str) -> (r: Option<String>)
    ensures
        match after_assets_dir(path@) {
            Some(t) => r matches Some(s) && s@ == t,
            None => r is None,
        },
{
    let chars = to_chars(path);
    let slash = to_chars("assets/");
    let back = to_chars("assets\\");
    proof {
        reveal_strlit("assets/");
        reveal_strlit("assets\\");
    }
    assert(slash@.len() == 7 && back@.len() == 7);
    let n = chars.len();
    match find(&chars, &slash) {
        Some(k) => {
            assert(occurs_at(chars@, slash@, k as int));
            assert(k + 7 <= chars@.len());
            let r = string_from_range(&chars, k + 7, n);
            assert(r@ =~= path@.skip(k + 7));
            Some(r)
        },
        None => match find(&chars, &back) {
            Some(k) => {
                assert(occurs_at(chars@, back@, k as int));
                assert(k + 7 <= chars@.len());
                let r = string_from_range(&chars, k + 7, n);
                assert(r@ =~= path@.skip(k + 7));
                Some(r)
            },
            None => None,
        },
    }
}

/// The asset paths a game needs copied for the project's tilesets: each
/// tileset's image paths in order, then its single path of the one-image
/// format when it has one.
pub open spec fn tileset_sync_paths(tilesets: Seq<Tileset>) -> Seq<Seq<char>>
    decreases tilesets.len(),
{
    if tilesets.len() == 0 {
        Seq::empty()
    } else {
        let t = tilesets.last();
        let images = t.images@.map_values(|i: TilesetImage| i.path@);
        let single = match t.path {
            Some(p) => seq![p@],
            None => Seq::empty(),
        };
        tileset_sync_paths(tilesets.drop_last()) + images + single
    }
}

/// The asset paths of the project's tilesets that are copied to the game, in
/// the order they are copied.
pub fn tileset_asset_paths(tilesets: &Vec<Tileset>) -> (r: Vec<String>)
    ensures
        r@.map_values(|s: String| s@) == tileset_sync_paths(tilesets@),
{
    let mut out: Vec<String> = Vec::new();
    let mut i: usize = 0;
    while i < tilesets.len()
        invariant
            i <= tilesets@.len(),
            out@.map_values(|s: String| s@) == tileset_sync_paths(tilesets@.take(i as int)),
        decreases tilesets@.len() - i,
    {
        let t = &tilesets[i];
        let ghost before = out@.map_values(|s: String| s@);
        let mut k: usize = 0;
        while k < t.images.len()
            invariant
                k <= t.images@.len(),
                out@.map_values(|s: String| s@) == before + t.images@.take(k as int).map_values(
                    |im: TilesetImage| im.path@,
                ),
            decreases t.images@.len() - k,
        {
            let ghost prev = out@;
            out.push(t.images[k].path.clone());
            proof {
                assert(t.images@.take(k + 1) =~= t.images@.take(k as int).push(t.images@[k as int]));
                assert(out@ =~= prev.push(out@.last()));
                assert(out@.map_values(|s: String| s@) =~= prev.map_values(|s: String| s@).push(
                    t.images@[k as int].path@,
                ));
            }
            k = k + 1;
            assert(out@.map_values(|s: String| s@) =~= before + t.images@.take(k as int).map_values(
                |im: TilesetImage| im.path@,
            ));
        }
        assert(t.images@.take(k as int) =~= t.images@);
        let ghost mid = out@.map_values(|s: String| s@);
        match &t.path {
            Some(p) => {
                out.push(p.clone());
                assert(out@.map_values(|s: String| s@) =~= mid.push(p@));
            },
            None => {},
        }
        proof {
            assert(tilesets@.take(i + 1).drop_last() =~= tilesets@.take(i as int));
            assert(tilesets@.take(i + 1).last() == tilesets@[i as int]);
            let single = match &t.path {
                Some(p) => seq![p@],
                None => Seq::<Seq<char>>::empty(),
            };
            assert(out@.map_values(|s: String| s@) =~= before + t.images@.map_values(
                |im: TilesetImage| im.path@,
            ) + single);
        }
        i = i + 1;
    }
    assert(tilesets@.take(i as int) =~= tilesets@);
    out
}

/// The asset paths to load for `paths`: each image with its path made
/// relative to the assets directory.
pub open spec fn normalized_paths(paths: Seq<(Uuid, usize, Seq<char>)>) -> Seq<(Uuid, usize, Seq<char>)> {
    paths.map_values(|p: (Uuid, usize, Seq<char>)| (p.0, p.1, asset_relative_path(p.2)))
}

/// The images a map project's textures are loaded from: its image paths (see
/// `MapProject::image_paths`), each made relative to the assets directory.
pub fn texture_asset_paths(project: &MapProject) -> (r: Vec<(Uuid, usize, String)>)
    ensures
        exists|ids: Seq<Uuid>|
            {
                &&& strictly_increasing(ids)
                &&& forall|x: Uuid| ids.contains(x) <==> tile_layer_ids(project.level.layers@).contains(x)
                &&& r@.map_values(|t: (Uuid, usize, String)| (t.0, t.1, t.2@)) == normalized_paths(
                    image_paths_for(ids, project.tilesets@),
                )
            },
{
    let paths = project.image_paths();
    let ghost views = path_views(paths@);
    let mut out: Vec<(Uuid, usize, String)> = Vec::new();
    let mut i: usize = 0;
    while i < paths.len()
        invariant
            i <= paths@.len(),
            views == path_views(paths@),
            out@.map_values(|t: (Uuid, usize, String)| (t.0, t.1, t.2@)) == normalized_paths(views.take(i as int)),
        decreases paths@.len() - i,
    {
        let (id, idx, path) = paths[i];
        let ghost before = out@;
        out.push((id, idx, normalize_asset_path(path)));
        proof {
            assert(views.take(i + 1) =~= views.take(i as int).push(views[i as int]));
            assert(out@ =~= before.push(out@.last()));
            assert(out@.map_values(|t: (Uuid, usize, String)| (t.0, t.1, t.2@)) =~= before.map_values(
                |t: (Uuid, usize, String)| (t.0, t.1, t.2@),
            ).push((id, idx, asset_relative_path(path@))));
        }
        i = i + 1;
    }
    assert(views.take(i as int) =~= views);
    out
}

} // verus!
