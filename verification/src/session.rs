use vstd::prelude::*;
use vstd::string::StringSliceAdditionalSpecFns;

verus! {

/// How many recent scenes are remembered.
pub const MAX_RECENT: usize = 10;

/// Whether two paths are the same path, as `Path`'s `==` decides: component by component,
/// so that `a//b` and `a/b` are the same. How a path splits into components is fixed for
/// the platform the library is built for (Unix and Windows paths differ).
pub uninterp spec fn same_path(a: Seq<char>, b: Seq<char>) -> bool;

/// Compares two paths with `Path`'s `==`. Its result is the named function `same_path`;
/// equal strings are the same path. How paths split into components is not claimed.
#[verifier::external_body]
pub(crate) fn paths_equal(a: &str, b: &str) -> (r: bool)
    ensures
        r == same_path(a@, b@),
        a@ == b@ ==> r,
{
    std::path::Path::new(a) == std::path::Path::new(b)
}

/// Any path but `path`.
pub open spec fn other_than(path: Seq<char>) -> spec_fn(Seq<char>) -> bool {
    |q: Seq<char>| !same_path(q, path)
}

/// The recent scene list after opening `path`: it comes first, its older mention goes, and
/// only the first [`MAX_RECENT`] are kept.
pub open spec fn recent_after(recent: Seq<Seq<char>>, path: Seq<char>) -> Seq<Seq<char>> {
    let all = seq![path] + recent.filter(other_than(path));
    if all.len() > MAX_RECENT {
        all.take(MAX_RECENT as int)
    } else {
        all
    }
}

/// The views of a list of strings.
pub open spec fn views(v: Seq<String>) -> Seq<Seq<char>> {
    v.map_values(|s: String| s@)
}

/// Puts `path` at the front of the recent scenes (see [`recent_after`]). Paths are
/// compared as paths (see [`same_path`]).
pub fn push_recent_scene(recent: &mut Vec<String>, path: String)
    ensures
        views(final(recent)@) == recent_after(views(old(recent)@), path@),
{
    let ghost old_views = views(recent@);
    let mut out: Vec<String> = Vec::new();
    out.push(path.clone());
    let mut i: usize = 0;
    while i < recent.len()
        invariant
            i <= recent@.len(),
            views(recent@) == old_views,
            views(out@) == seq![path@] + old_views.take(i as int).filter(other_than(path@)),
        decreases recent@.len() - i,
    {
        proof {
            let t = old_views.take(i as int + 1);
            assert(t.drop_last() =~= old_views.take(i as int));
            reveal_with_fuel(Seq::filter, 1);
            assert(t.filter(other_than(path@)) == t.drop_last().filter(
                other_than(path@),
            ) + if !same_path(t.last(), path@) {
                seq![t.last()]
            } else {
                Seq::empty()
            });
            assert(t.last() == recent@[i as int]@);
        }
        if !paths_equal(recent[i].as_str(), path.as_str()) {
            let ghost prev = out@;
            out.push(recent[i].clone());
            proof {
                assert(views(out@) =~= views(prev).push(recent@[i as int]@));
                assert(views(out@) =~= seq![path@] + old_views.take(i as int + 1).filter(
                    other_than(path@),
                ));
            }
        } else {
            proof {
                assert(views(out@) =~= seq![path@] + old_views.take(i as int + 1).filter(
                    other_than(path@),
                ));
            }
        }
        i += 1;
    }
    proof {
        assert(old_views.take(i as int) =~= old_views);
    }
    out.truncate(MAX_RECENT);
    proof {
        assert(views(out@) =~= recent_after(old_views, path@));
    }
    *recent = out;
}

/// The language a new frame is written in: the preferred one when it is available (or
/// nothing is known of the available ones), else the first available one.
pub open spec fn default_language(preferred: Seq<char>, available: Seq<Seq<char>>) -> Seq<char> {
    if available.len() == 0 || available.contains(preferred) {
        preferred
    } else {
        available[0]
    }
}

/// The language a new frame is written in, among the names of the available languages (see
/// [`default_language`]).
pub fn resolve_default_language(preferred: &str, available: &Vec<String>) -> (r: String)
    ensures
        r@ == default_language(preferred@, views(available@)),
{
    let p = String::from_str(preferred);
    let mut i: usize = 0;
    while i < available.len()
        invariant
            i <= available@.len(),
            p@ == preferred@,
            forall|k: int| 0 <= k < i ==> available@[k]@ != preferred@,
        decreases available@.len() - i,
    {
        if available[i] == p {
            proof {
                assert(views(available@)[i as int] == preferred@);
            }
            return p;
        }
        i += 1;
    }
    if available.len() == 0 {
        return p;
    }
    proof {
        assert(!views(available@).contains(preferred@));
    }
    available[0].clone()
}

/// The wrapping hash of a user name's UTF-8 bytes: each byte is added to 31 times the
/// hash so far, modulo 2^32.
pub open spec fn name_hash(bytes: Seq<u8>) -> u32
    decreases bytes.len(),
{
    if bytes.len() == 0 {
        0
    } else {
        name_hash(bytes.drop_last()).wrapping_mul(31).wrapping_add(bytes.last() as u32)
    }
}

/// The hue (in degrees, below 360) that a user's name is drawn with.
pub fn username_hue(name: &str) -> (r: u32)
    ensures
        r == name_hash(name.spec_bytes()) % 360,
        r < 360,
{
    let bytes = name.as_bytes();
    let mut hash: u32 = 0;
    let mut i: usize = 0;
    while i < bytes.len()
        invariant
            i <= bytes@.len(),
            bytes@ == name.spec_bytes(),
            hash == name_hash(bytes@.take(i as int)),
        decreases bytes@.len() - i,
    {
        proof {
            assert(bytes@.take(i as int + 1).drop_last() =~= bytes@.take(i as int));
        }
        hash = hash.wrapping_mul(31).wrapping_add(bytes[i] as u32);
        i += 1;
    }
    proof {
        assert(bytes@.take(i as int) =~= bytes@);
    }
    hash % 360
}


/// After opening `path`, it heads the recent scenes, no later entry is the same path, and
/// at most [`MAX_RECENT`] scenes are listed; older entries without repeats stay without
/// repeats.
pub proof fn lemma_recent_after(recent: Seq<Seq<char>>, path: Seq<char>)
    ensures
        recent_after(recent, path).len() >= 1,
        recent_after(recent, path)[0] == path,
        recent_after(recent, path).len() <= MAX_RECENT,
        forall|i: int|
            1 <= i < recent_after(recent, path).len() ==> !same_path(
                #[trigger] recent_after(recent, path)[i],
                path,
            ),
        recent.no_duplicates() ==> recent_after(recent, path).drop_first().no_duplicates(),
{
    let f = recent.filter(other_than(path));
    let all = seq![path] + f;
    assert forall|i: int| 0 <= i < f.len() implies !same_path(#[trigger] f[i], path) by {
        recent.filter_lemma(other_than(path));
    }
    let r = recent_after(recent, path);
    assert(forall|i: int| 0 <= i < r.len() ==> r[i] == all[i]);
    if recent.no_duplicates() {
        recent.filter_lemma(other_than(path));
        lemma_filter_no_duplicates(recent, path);
        let d = r.drop_first();
        assert forall|i: int, j: int| 0 <= i < d.len() && 0 <= j < d.len() && i != j implies d[i]
            != d[j] by {
            assert(d[i] == f[i] && d[j] == f[j]);
        }
    }
}


proof fn lemma_filter_no_duplicates(s: Seq<Seq<char>>, path: Seq<char>)
    requires
        s.no_duplicates(),
    ensures
        s.filter(other_than(path)).no_duplicates(),
    decreases s.len(),
{
    if s.len() > 0 {
        let t = s.drop_last();
        assert(t.no_duplicates());
        lemma_filter_no_duplicates(t, path);
        reveal_with_fuel(Seq::filter, 1);
        let ft = t.filter(other_than(path));
        t.filter_lemma(other_than(path));
        assert(s.filter(other_than(path)) == ft + if !same_path(s.last(), path) {
            seq![s.last()]
        } else {
            Seq::empty()
        });
        assert forall|i: int| 0 <= i < ft.len() implies #[trigger] ft[i] != s.last() by {
            assert(ft.contains(ft[i]));
            t.lemma_filter_contains_rev(other_than(path), ft[i]);
            let k = choose|k: int| 0 <= k < t.len() && t[k] == ft[i];
            assert(s[k] == t[k]);
        }
    }
}

} // verus!
