//! Serving the embedded admin pages: which file a request path names, and
//! when the single-page index answers instead.
use vstd::prelude::*;

use crate::text::{chars_eq, chars_of, owned, split_on, split_seq, starts_with, string_from_range, views};

verus! {

/// A request path without its leading slashes; the index for the root.
pub open spec fn normalize_path_spec(p: Seq<char>) -> Seq<char>
    decreases p.len(),
{
    if p.len() > 0 && p[0] == '/' {
        normalize_path_spec(p.skip(1))
    } else if p.len() == 0 {
        "index.html"@
    } else {
        p
    }
}

/// See [`normalize_path_spec`].
pub fn normalize_path(request_path: &str) -> (r: String)
    ensures
        r@ == normalize_path_spec(request_path@),
{
    let pc = chars_of(request_path);
    let mut i: usize = 0;
    assert(pc@.skip(0) =~= pc@);
    while i < pc.len() && pc[i] == '/'
        invariant
            i <= pc@.len(),
            pc@ == request_path@,
            normalize_path_spec(request_path@) == normalize_path_spec(pc@.skip(i as int)),
        decreases pc.len() - i,
    {
        assert(pc@.skip(i as int).skip(1) =~= pc@.skip(i + 1));
        i = i + 1;
    }
    if i == pc.len() {
        assert(pc@.skip(i as int).len() == 0);
        owned("index.html")
    } else {
        string_from_range(&pc, i, pc.len())
    }
}

/// A piece of a `/`-separated path that `Path::components` keeps as a
/// component: not empty and not `.`.
pub open spec fn kept_piece(p: Seq<char>) -> bool {
    p.len() > 0 && p != "."@
}

/// The last kept piece of a list of pieces.
pub open spec fn last_kept(ps: Seq<Seq<char>>) -> Option<Seq<char>>
    decreases ps.len(),
{
    if ps.len() == 0 {
        None
    } else if kept_piece(ps.last()) {
        Some(ps.last())
    } else {
        last_kept(ps.drop_last())
    }
}

/// The `/`-separated pieces of a path.
pub open spec fn path_pieces(path: Seq<char>) -> Seq<Seq<char>> {
    split_seq(path, |c: char| c == '/')
}

/// Whether `Path::extension` finds an extension (on Unix): the file name,
/// the last component, holds a `.` after its first character and is not
/// `..`. (A root, a lone `.` or a path without a name has none.)
pub open spec fn has_extension_spec(path: Seq<char>) -> bool {
    match last_kept(path_pieces(path)) {
        Some(f) => f != ".."@ && exists|k: int| 1 <= k < f.len() && f[k] == '.',
        None => false,
    }
}

fn name_has_extension(f: &Vec<char>) -> (r: bool)
    ensures
        r == (f@ != ".."@ && exists|k: int| 1 <= k < f@.len() && f@[k] == '.'),
{
    let dots = chars_of("..");
    proof {
        reveal_strlit("..");
    }
    if chars_eq(f, &dots) {
        return false;
    }
    let mut k: usize = 1;
    while k < f.len()
        invariant
            1 <= k,
            f@ != ".."@,
            forall|j: int| 1 <= j < k && j < f@.len() ==> f@[j] != '.',
        decreases f.len() - k,
    {
        if f[k] == '.' {
            assert(f@[k as int] == '.');
            return true;
        }
        k = k + 1;
    }
    false
}

/// See [`has_extension_spec`].
fn has_extension(path: &str) -> (r: bool)
    ensures
        r == has_extension_spec(path@),
{
    let cs = chars_of(path);
    let pieces = split_on(&cs, '/');
    let ghost ps = path_pieces(path@);
    assert(views(pieces@) =~= ps);
    let dot = chars_of(".");
    proof {
        reveal_strlit(".");
    }
    let mut i: usize = pieces.len();
    assert(ps.take(i as int) =~= ps);
    while i > 0
        invariant
            i <= pieces@.len(),
            views(pieces@) == ps,
            ps == path_pieces(path@),
            dot@ == "."@,
            last_kept(ps) == last_kept(ps.take(i as int)),
        decreases i,
    {
        let p = chars_of(pieces[i - 1].as_str());
        assert(ps.take(i as int).last() == ps[i - 1]);
        assert(ps.take(i as int).drop_last() =~= ps.take(i - 1));
        assert(p@ == ps[i - 1]);
        if p.len() > 0 && !chars_eq(&p, &dot) {
            assert(kept_piece(ps.take(i as int).last()));
            assert(last_kept(ps) == Some(p@));
            return name_has_extension(&p);
        }
        i = i - 1;
    }
    assert(ps.take(0) =~= Seq::<Seq<char>>::empty());
    false
}

/// What answers a request for the admin pages.
#[derive(Debug)]
pub enum UiAnswer {
    /// The embedded file of that name.
    File(String),
    /// The single-page index.
    Index,
    /// Nothing (404).
    NotFound,
}

/// The embedded file a request names when it exists; otherwise the index
/// for a path without an extension (a page of the application), when the
/// index exists; otherwise nothing.
pub fn ui_answer(request_path: &str, file_exists: bool, index_exists: bool) -> (r: UiAnswer)
    ensures
        file_exists ==> (r matches UiAnswer::File(p) && p@ == normalize_path_spec(request_path@)),
        !file_exists && !has_extension_spec(normalize_path_spec(request_path@)) && index_exists
            ==> r is Index,
        !file_exists && (has_extension_spec(normalize_path_spec(request_path@)) || !index_exists)
            ==> r is NotFound,
{
    let path = normalize_path(request_path);
    if file_exists {
        return UiAnswer::File(path);
    }
    if !has_extension(path.as_str()) && index_exists {
        return UiAnswer::Index;
    }
    UiAnswer::NotFound
}

/// Files under `assets/` are cached for a year.
pub fn long_cache(path: &str) -> (r: bool)
    ensures
        r == "assets/"@.is_prefix_of(path@),
{
    starts_with(&chars_of(path), &chars_of("assets/"))
}

} // verus!
