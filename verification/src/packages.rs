//! Package state inspection: deciding, from the package manager's installed
//! and candidate versions, which packages are outdated. A package is
//! outdated when it has both an installed and a candidate version and the
//! two differ.

use vstd::prelude::*;

use crate::text::{
    chars_string, find_first, first_index_of, prefix_chars, slice_chars, str_chars, trim_end,
    trim_end_chars,
};

verus! {

/// One package as the package manager reports it: its name, the installed
/// version if any, and the candidate version if any.
pub struct PackageVersions {
    pub name: String,
    pub current: Option<String>,
    pub candidate: Option<String>,
}

/// Abstract value of a `PackageVersions`.
pub ghost struct PackageView {
    pub name: Seq<char>,
    pub current: Option<Seq<char>>,
    pub candidate: Option<Seq<char>>,
}

impl View for PackageVersions {
    type V = PackageView;

    open spec fn view(&self) -> PackageView {
        PackageView {
            name: self.name@,
            current: match self.current {
                Some(v) => Some(v@),
                None => None,
            },
            candidate: match self.candidate {
                Some(v) => Some(v@),
                None => None,
            },
        }
    }
}

/// A package is outdated when it has both an installed and a candidate
/// version and they differ.
pub open spec fn spec_outdated(p: PackageView) -> bool {
    p.current is Some && p.candidate is Some && p.current != p.candidate
}

/// The names of the outdated packages, in input order.
pub open spec fn spec_outdated_names(ps: Seq<PackageView>) -> Seq<Seq<char>>
    decreases ps.len(),
{
    if ps.len() == 0 {
        Seq::empty()
    } else {
        (if spec_outdated(ps[0]) {
            seq![ps[0].name]
        } else {
            Seq::<Seq<char>>::empty()
        }) + spec_outdated_names(ps.drop_first())
    }
}

/// List the outdated packages: those with both an installed and a candidate
/// version that differ, in the order the package manager reports them.
#[verifier::loop_isolation(false)]
pub fn get_apt_updates(packages: &Vec<PackageVersions>) -> (r: Vec<String>)
    ensures
        r@.map_values(|s: String| s@) == spec_outdated_names(
            packages@.map_values(|p: PackageVersions| p@),
        ),
{
    let ghost views = packages@.map_values(|p: PackageVersions| p@);
    let mut r: Vec<String> = Vec::new();
    proof {
        assert(views.subrange(0, views.len() as int) =~= views);
        assert(r@.map_values(|s: String| s@) =~= Seq::<Seq<char>>::empty());
    }
    let mut i: usize = 0;
    while i < packages.len()
        invariant
            i <= packages@.len(),
            r@.map_values(|s: String| s@) + spec_outdated_names(
                views.subrange(i as int, views.len() as int),
            ) == spec_outdated_names(views),
        decreases packages@.len() - i,
    {
        let ghost tail = views.subrange(i as int, views.len() as int);
        proof {
            assert(tail[0] == views[i as int]);
            assert(views[i as int] == packages@[i as int]@);
            assert(tail.drop_first() =~= views.subrange(i + 1, views.len() as int));
        }
        let p = &packages[i];
        let outdated = match (&p.current, &p.candidate) {
            (Some(rel), Some(can)) => !rel.eq(can),
            _ => false,
        };
        assert(outdated == spec_outdated(views[i as int]));
        if outdated {
            let ghost before = r@.map_values(|s: String| s@);
            let n = p.name.clone();
            assert(n@ == views[i as int].name);
            r.push(n);
            proof {
                assert(r@.map_values(|s: String| s@) =~= before.push(views[i as int].name));
                assert(before.push(views[i as int].name) + spec_outdated_names(tail.drop_first())
                    =~= before + (seq![views[i as int].name] + spec_outdated_names(
                    tail.drop_first(),
                )));
            }
        } else {
            proof {
                assert(Seq::<Seq<char>>::empty() + spec_outdated_names(tail.drop_first())
                    =~= spec_outdated_names(tail.drop_first()));
            }
        }
        i = i + 1;
    }
    proof {
        assert(views.subrange(views.len() as int, views.len() as int) =~= Seq::<
            PackageView,
        >::empty());
        assert(r@.map_values(|s: String| s@) + Seq::<Seq<char>>::empty() =~= r@.map_values(
            |s: String| s@,
        ));
    }
    r
}

/// The first position at or after `i` holding something other than a space,
/// or the end of the sequence.
pub open spec fn next_non_space(s: Seq<char>, i: int) -> int
    decreases s.len() - i,
{
    if i < 0 || i >= s.len() {
        s.len() as int
    } else if s[i] != ' ' {
        i
    } else {
        next_non_space(s, i + 1)
    }
}

/// The first position at or after `i` holding a space, or the end of the
/// sequence.
pub open spec fn next_space(s: Seq<char>, i: int) -> int
    decreases s.len() - i,
{
    if i < 0 || i >= s.len() {
        s.len() as int
    } else if s[i] == ' ' {
        i
    } else {
        next_space(s, i + 1)
    }
}

/// `next_non_space` executably.
fn scan_non_space(v: &Vec<char>, i: usize) -> (r: usize)
    requires
        i <= v@.len(),
    ensures
        r as int == next_non_space(v@, i as int),
        i <= r <= v@.len(),
    decreases v@.len() - i,
{
    if i == v.len() {
        i
    } else if v[i] != ' ' {
        i
    } else {
        scan_non_space(v, i + 1)
    }
}

/// `next_space` executably.
fn scan_space(v: &Vec<char>, i: usize) -> (r: usize)
    requires
        i <= v@.len(),
    ensures
        r as int == next_space(v@, i as int),
        i <= r <= v@.len(),
    decreases v@.len() - i,
{
    if i == v.len() {
        i
    } else if v[i] == ' ' {
        i
    } else {
        scan_space(v, i + 1)
    }
}

/// The first position at or after `i` where `p` occurs as a substring of
/// `s`, or the end of the sequence when it occurs nowhere.
pub open spec fn find_sub_from(s: Seq<char>, p: Seq<char>, i: int) -> int
    decreases s.len() - i,
{
    if i < 0 || i >= s.len() {
        s.len() as int
    } else if p.is_prefix_of(s.subrange(i, s.len() as int)) {
        i
    } else {
        find_sub_from(s, p, i + 1)
    }
}

/// A nonempty pattern found by `find_sub_from` fits within the sequence.
proof fn lemma_find_sub_from(s: Seq<char>, p: Seq<char>, i: int)
    requires
        0 <= i <= s.len(),
    ensures
        i <= find_sub_from(s, p, i) <= s.len(),
        find_sub_from(s, p, i) < s.len() ==> p.is_prefix_of(
            s.subrange(find_sub_from(s, p, i), s.len() as int),
        ),
    decreases s.len() - i,
{
    if i < s.len() && !p.is_prefix_of(s.subrange(i, s.len() as int)) {
        lemma_find_sub_from(s, p, i + 1);
    }
}

/// Whether `p` occurs as a prefix of `v` at position `i`.
#[verifier::loop_isolation(false)]
fn prefix_at(v: &Vec<char>, p: &str, i: usize) -> (b: bool)
    requires
        i <= v@.len(),
    ensures
        b == p@.is_prefix_of(v@.subrange(i as int, v@.len() as int)),
{
    let n = p.unicode_len();
    if v.len() - i < n {
        return false;
    }
    let mut j: usize = 0;
    while j < n
        invariant
            n == p@.len(),
            i + n <= v@.len(),
            j <= n,
            forall|k: int| 0 <= k < j ==> v@[i + k] == #[trigger] p@[k],
        decreases n - j,
    {
        if v[i + j] != p.get_char(j) {
            proof {
                assert(v@.subrange(i as int, v@.len() as int)[j as int] == v@[i + j]);
            }
            return false;
        }
        j = j + 1;
    }
    proof {
        assert(v@.subrange(i as int, v@.len() as int).subrange(0, n as int) =~= p@);
    }
    true
}

/// `find_sub_from` executably.
fn find_sub_at(v: &Vec<char>, p: &str, i: usize) -> (r: usize)
    requires
        i <= v@.len(),
    ensures
        r as int == find_sub_from(v@, p@, i as int),
    decreases v@.len() - i,
{
    if i == v.len() {
        return i;
    }
    if prefix_at(v, p, i) {
        return i;
    }
    find_sub_at(v, p, i + 1)
}

/// The marker preceding the installed version on an upgradable-package
/// report line.
pub open spec fn spec_from_marker() -> Seq<char> {
    "upgradable from: "@
}

/// What one line of the package manager's upgradable-package report means.
/// A line of the form `name/suite candidate ...` names an upgradable
/// package: the name stands before the first slash, the candidate version is
/// the second space-separated field after it, and the installed version —
/// when the line carries the `upgradable from: ` marker — follows that
/// marker, up to a closing bracket. A line without a slash, or without a
/// candidate field, reports no package.
pub open spec fn spec_parse_upgradable(line: Seq<char>) -> Option<PackageView> {
    let slash = first_index_of(line, '/');
    if slash == line.len() {
        None
    } else {
        let rest = line.subrange(slash + 1, line.len() as int);
        let suite_end = next_space(rest, next_non_space(rest, 0));
        let cand_start = next_non_space(rest, suite_end);
        if cand_start == rest.len() {
            None
        } else {
            let cand_end = next_space(rest, cand_start);
            let m = find_sub_from(line, spec_from_marker(), 0);
            let current = if m == line.len() {
                None
            } else {
                Some(
                    trim_end(
                        line.subrange(m + spec_from_marker().len(), line.len() as int),
                        ']',
                    ),
                )
            };
            Some(
                PackageView {
                    name: line.subrange(0, slash),
                    current,
                    candidate: Some(rest.subrange(cand_start, cand_end)),
                },
            )
        }
    }
}

/// Parse one line of the package manager's upgradable-package report into
/// the package's name and versions.
pub fn parse_upgradable_line(line: &str) -> (r: Option<PackageVersions>)
    ensures
        match r {
            Some(p) => spec_parse_upgradable(line@) == Some(p@),
            None => spec_parse_upgradable(line@) == None::<PackageView>,
        },
{
    let chars = str_chars(line);
    let slash = find_first(&chars, '/');
    if slash == chars.len() {
        return None;
    }
    proof {
        crate::text::lemma_first_index_le_len(line@, '/');
    }
    let rest = slice_chars(&chars, slash + 1, chars.len());
    let suite_end = scan_space(&rest, scan_non_space(&rest, 0));
    let cand_start = scan_non_space(&rest, suite_end);
    if cand_start == rest.len() {
        return None;
    }
    let cand_end = scan_space(&rest, cand_start);
    let marker = "upgradable from: ";
    let mlen = marker.unicode_len();
    let m = find_sub_at(&chars, marker, 0);
    let current = if m == chars.len() {
        None
    } else {
        proof {
            lemma_find_sub_from(line@, marker@, 0);
            assert(line@.subrange(m as int, line@.len() as int).len() == line@.len() - m);
        }
        assert(m + mlen <= chars@.len());
        let tail = slice_chars(&chars, m + mlen, chars.len());
        let trimmed = trim_end_chars(&tail, ']');
        Some(chars_string(&trimmed))
    };
    let name = prefix_chars(&chars, slash);
    let candidate = slice_chars(&rest, cand_start, cand_end);
    Some(
        PackageVersions {
            name: chars_string(&name),
            current,
            candidate: Some(chars_string(&candidate)),
        },
    )
}

} // verus!
