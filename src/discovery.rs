//! Discovery of benchmarks in a `root/<category>/<benchmark>/<language>`
//! tree, and resolution of the language implementations of one benchmark.
//!
//! Directory listings are read by the caller and handed in as plain entries;
//! an unreadable or missing directory is an empty listing.

use vstd::prelude::*;
use vstd::string::StrSliceExecFns;
use vstd::string::StringExecFns;
use vstd::seq_lib::{to_multiset_build, to_multiset_insert};

verus! {

/// One entry of a directory listing.
#[derive(Clone, Debug)]
pub struct DirEntry {
    pub name: String,
    pub is_dir: bool,
}

/// The views of a sequence of strings.
pub open spec fn names_view(s: Seq<String>) -> Seq<Seq<char>> {
    s.map_values(|x: String| x@)
}

/// The names of the entries that are directories, in listing order.
pub open spec fn dir_names(entries: Seq<DirEntry>) -> Seq<Seq<char>>
    decreases entries.len(),
{
    if entries.len() == 0 {
        Seq::empty()
    } else {
        let rest = dir_names(entries.drop_last());
        if entries.last().is_dir {
            rest.push(entries.last().name@)
        } else {
            rest
        }
    }
}

/// Lexicographic order on names, character by character (the order of
/// `str`, since UTF-8 keeps the order of code points).
pub open spec fn name_le(a: Seq<char>, b: Seq<char>) -> bool
    decreases a.len(),
{
    if a.len() == 0 {
        true
    } else if b.len() == 0 {
        false
    } else if a[0] != b[0] {
        a[0] < b[0]
    } else {
        name_le(a.drop_first(), b.drop_first())
    }
}

pub proof fn lemma_name_le_total(a: Seq<char>, b: Seq<char>)
    ensures
        name_le(a, b) || name_le(b, a),
    decreases a.len(),
{
    if a.len() > 0 && b.len() > 0 && a[0] == b[0] {
        lemma_name_le_total(a.drop_first(), b.drop_first());
    }
}

pub proof fn lemma_name_le_transitive(a: Seq<char>, b: Seq<char>, c: Seq<char>)
    requires
        name_le(a, b),
        name_le(b, c),
    ensures
        name_le(a, c),
    decreases a.len(),
{
    if a.len() > 0 && b.len() > 0 && c.len() > 0 && a[0] == b[0] && b[0] == c[0] {
        lemma_name_le_transitive(a.drop_first(), b.drop_first(), c.drop_first());
    }
}

/// Whether `a` comes before `b`, or equals it, in name order.
pub fn name_le_exec(a: &str, b: &str) -> (r: bool)
    ensures
        r == name_le(a@, b@),
{
    let la = a.unicode_len();
    let lb = b.unicode_len();
    let mut i: usize = 0;
    proof {
        assert(a@.skip(0) =~= a@);
        assert(b@.skip(0) =~= b@);
    }
    while i < la && i < lb
        invariant
            la == a@.len(),
            lb == b@.len(),
            i <= la,
            i <= lb,
            name_le(a@, b@) == name_le(a@.skip(i as int), b@.skip(i as int)),
        decreases la - i,
    {
        let ca = a.get_char(i);
        let cb = b.get_char(i);
        proof {
            assert(a@.skip(i as int)[0] == ca);
            assert(b@.skip(i as int)[0] == cb);
        }
        if ca != cb {
            return ca < cb;
        }
        proof {
            assert(a@.skip(i as int).drop_first() =~= a@.skip(i + 1));
            assert(b@.skip(i as int).drop_first() =~= b@.skip(i + 1));
        }
        i += 1;
    }
    i == la
}

/// Whether two texts are equal, character by character.
pub fn same_text(a: &str, b: &str) -> (r: bool)
    ensures
        r == (a@ == b@),
{
    let la = a.unicode_len();
    let lb = b.unicode_len();
    if la != lb {
        return false;
    }
    let mut i: usize = 0;
    while i < la
        invariant
            la == a@.len(),
            lb == b@.len(),
            la == lb,
            i <= la,
            forall|k: int| 0 <= k < i ==> a@[k] == b@[k],
        decreases la - i,
    {
        if a.get_char(i) != b.get_char(i) {
            return false;
        }
        i += 1;
    }
    proof {
        assert(a@ =~= b@);
    }
    true
}

/// The names of the entries that are directories, in listing order.
pub fn directory_names(entries: &Vec<DirEntry>) -> (r: Vec<String>)
    ensures
        names_view(r@) == dir_names(entries@),
{
    let mut out: Vec<String> = Vec::new();
    let mut i: usize = 0;
    proof {
        assert(entries@.subrange(0, 0) =~= Seq::<DirEntry>::empty());
        assert(names_view(out@) =~= Seq::<Seq<char>>::empty());
    }
    while i < entries.len()
        invariant
            i <= entries.len(),
            names_view(out@) == dir_names(entries@.subrange(0, i as int)),
        decreases entries.len() - i,
    {
        proof {
            assert(entries@.subrange(0, i + 1).drop_last() =~= entries@.subrange(0, i as int));
        }
        if entries[i].is_dir {
            let ghost before = out@;
            out.push(entries[i].name.clone());
            proof {
                assert(names_view(out@) =~= names_view(before).push(entries@[i as int].name@));
            }
        }
        i += 1;
    }
    proof {
        assert(entries@.subrange(0, entries@.len() as int) =~= entries@);
    }
    out
}

/// The language tags of one benchmark: the names of its subdirectories.
/// Whether a language can actually be built is decided later.
pub fn resolve_languages(entries: &Vec<DirEntry>) -> (r: Vec<String>)
    ensures
        names_view(r@) == dir_names(entries@),
{
    directory_names(entries)
}

/// The categories to list: the one selected, or else every subdirectory of
/// the root.
pub open spec fn categories_spec(filter: Option<Seq<char>>, root: Seq<DirEntry>) -> Seq<Seq<char>> {
    match filter {
        Some(c) => seq![c],
        None => dir_names(root),
    }
}

/// The categories to list, given an optional category filter and the
/// listing of the root directory.
pub fn categories_to_scan(filter: Option<&str>, root_entries: &Vec<DirEntry>) -> (r: Vec<String>)
    ensures
        names_view(r@) == categories_spec(
            match filter {
                Some(c) => Some(c@),
                None => None,
            },
            root_entries@,
        ),
{
    match filter {
        Some(c) => {
            let mut out: Vec<String> = Vec::new();
            out.push(String::from_str(c));
            proof {
                assert(names_view(out@) =~= seq![c@]);
            }
            out
        },
        None => directory_names(root_entries),
    }
}

/// The places where a benchmark tree is looked for, in order.
pub open spec fn root_candidates() -> Seq<Seq<char>> {
    seq!["benches"@, "../benches"@, "../../benches"@]
}

/// The first candidate that exists, or the first candidate if none does.
pub open spec fn chosen_root(exists: Seq<bool>) -> Seq<char> {
    if exists.len() > 0 && exists[0] {
        root_candidates()[0]
    } else if exists.len() > 1 && exists[1] {
        root_candidates()[1]
    } else if exists.len() > 2 && exists[2] {
        root_candidates()[2]
    } else {
        root_candidates()[0]
    }
}

/// The places where a benchmark tree is looked for, in order of preference.
pub fn bench_root_candidates() -> (r: Vec<String>)
    ensures
        names_view(r@) == root_candidates(),
{
    let mut out: Vec<String> = Vec::new();
    out.push(String::from_str("benches"));
    out.push(String::from_str("../benches"));
    out.push(String::from_str("../../benches"));
    proof {
        assert(names_view(out@) =~= root_candidates());
    }
    out
}

/// The benchmark root: `exists[i]` tells whether the i-th candidate of
/// `bench_root_candidates` exists (a missing flag counts as absent).
pub fn find_benches_dir(exists: &Vec<bool>) -> (r: String)
    ensures
        r@ == chosen_root(exists@),
{
    let candidates = bench_root_candidates();
    proof {
        assert(names_view(candidates@).len() == 3);
    }
    let mut i: usize = 0;
    while i < 3
        invariant
            i <= 3,
            candidates@.len() == 3,
            names_view(candidates@) == root_candidates(),
            forall|k: int| 0 <= k < i ==> !(k < exists@.len() && #[trigger] exists@[k]),
        decreases 3 - i,
    {
        if i < exists.len() && exists[i] {
            proof {
                assert(candidates@[i as int]@ == names_view(candidates@)[i as int]);
            }
            return candidates[i].clone();
        }
        i += 1;
    }
    proof {
        assert(candidates@[0]@ == names_view(candidates@)[0]);
    }
    candidates[0].clone()
}

/// A benchmark found by discovery: its name and its category.  It lives at
/// `<root>/<category>/<name>`.
#[derive(Clone, Debug)]
pub struct BenchmarkLocation {
    pub name: String,
    pub category: String,
}

impl View for BenchmarkLocation {
    type V = (Seq<char>, Seq<char>);

    open spec fn view(&self) -> (Seq<char>, Seq<char>) {
        (self.name@, self.category@)
    }
}

impl BenchmarkLocation {
    /// A copy of this location.
    pub fn duplicate(&self) -> (r: BenchmarkLocation)
        ensures
            r@ == self@,
    {
        BenchmarkLocation { name: self.name.clone(), category: self.category.clone() }
    }
}

/// The listing of one category directory.
#[derive(Clone, Debug)]
pub struct CategoryListing {
    pub category: String,
    pub entries: Vec<DirEntry>,
}

/// The views of a sequence of locations.
pub open spec fn locations_view(s: Seq<BenchmarkLocation>) -> Seq<(Seq<char>, Seq<char>)> {
    s.map_values(|l: BenchmarkLocation| l@)
}

/// The benchmarks of one category: its subdirectories, in listing order.
pub open spec fn found_in(category: Seq<char>, entries: Seq<DirEntry>) -> Seq<(Seq<char>, Seq<char>)> {
    dir_names(entries).map_values(|n: Seq<char>| (n, category))
}

/// The benchmarks of all listed categories, category after category.
pub open spec fn found(listings: Seq<CategoryListing>) -> Seq<(Seq<char>, Seq<char>)>
    decreases listings.len(),
{
    if listings.len() == 0 {
        Seq::empty()
    } else {
        found(listings.drop_last()) + found_in(
            listings.last().category@,
            listings.last().entries@,
        )
    }
}

/// Locations ordered by benchmark name.
pub open spec fn sorted_by_name(s: Seq<(Seq<char>, Seq<char>)>) -> bool {
    forall|i: int, j: int| 0 <= i < j < s.len() ==> #[trigger] name_le(s[i].0, s[j].0)
}

/// Every benchmark of the listed categories, in listing order.
pub fn collect_benchmarks(listings: &Vec<CategoryListing>) -> (r: Vec<BenchmarkLocation>)
    ensures
        locations_view(r@) == found(listings@),
{
    let mut out: Vec<BenchmarkLocation> = Vec::new();
    let mut k: usize = 0;
    proof {
        assert(listings@.subrange(0, 0) =~= Seq::<CategoryListing>::empty());
        assert(locations_view(out@) =~= Seq::<(Seq<char>, Seq<char>)>::empty());
    }
    while k < listings.len()
        invariant
            k <= listings.len(),
            locations_view(out@) == found(listings@.subrange(0, k as int)),
        decreases listings.len() - k,
    {
        let listing = &listings[k];
        let ghost base = found(listings@.subrange(0, k as int));
        let mut j: usize = 0;
        proof {
            assert(listing.entries@.subrange(0, 0) =~= Seq::<DirEntry>::empty());
            assert(found_in(listing.category@, listing.entries@.subrange(0, 0)) =~= Seq::<
                (Seq<char>, Seq<char>),
            >::empty());
            assert(locations_view(out@) =~= base + found_in(
                listing.category@,
                listing.entries@.subrange(0, 0),
            ));
        }
        while j < listing.entries.len()
            invariant
                j <= listing.entries@.len(),
                listing == listings@[k as int],
                base == found(listings@.subrange(0, k as int)),
                locations_view(out@) == base + found_in(
                    listing.category@,
                    listing.entries@.subrange(0, j as int),
                ),
            decreases listing.entries.len() - j,
        {
            let ghost before = out@;
            let ghost cat = listing.category@;
            let ghost sub = listing.entries@.subrange(0, j as int);
            let ghost next = listing.entries@.subrange(0, j + 1);
            proof {
                assert(next.drop_last() =~= sub);
            }
            let entry = &listing.entries[j];
            if entry.is_dir {
                out.push(BenchmarkLocation { name: entry.name.clone(), category: listing.category.clone() });
                proof {
                    assert(dir_names(next) == dir_names(sub).push(entry.name@));
                    assert(found_in(cat, next) =~= found_in(cat, sub).push((entry.name@, cat)));
                    assert(locations_view(out@) =~= locations_view(before).push((entry.name@, cat)));
                    assert(locations_view(out@) =~= base + found_in(cat, next));
                }
            } else {
                proof {
                    assert(dir_names(next) == dir_names(sub));
                }
            }
            j += 1;
        }
        proof {
            assert(listing.entries@.subrange(0, listing.entries@.len() as int) =~= listing.entries@);
            assert(listings@.subrange(0, k + 1).drop_last() =~= listings@.subrange(0, k as int));
            assert(listings@.subrange(0, k + 1).last() == listings@[k as int]);
        }
        k += 1;
    }
    proof {
        assert(listings@.subrange(0, listings@.len() as int) =~= listings@);
    }
    out
}

/// The locations ordered by benchmark name; locations with equal names keep
/// their order.
pub fn sort_by_name(v: &Vec<BenchmarkLocation>) -> (r: Vec<BenchmarkLocation>)
    ensures
        sorted_by_name(locations_view(r@)),
        locations_view(r@).to_multiset() == locations_view(v@).to_multiset(),
{
    let mut out: Vec<BenchmarkLocation> = Vec::new();
    let mut i: usize = 0;
    proof {
        assert(locations_view(out@) =~= locations_view(v@.subrange(0, 0)));
    }
    while i < v.len()
        invariant
            i <= v.len(),
            forall|a: int, b: int|
                0 <= a < b < out@.len() ==> #[trigger] name_le(out@[a].name@, out@[b].name@),
            locations_view(out@).to_multiset() == locations_view(
                v@.subrange(0, i as int),
            ).to_multiset(),
        decreases v.len() - i,
    {
        let x = v[i].duplicate();
        let mut j: usize = 0;
        while j < out.len() && name_le_exec(out[j].name.as_str(), x.name.as_str())
            invariant
                j <= out@.len(),
                forall|k: int| 0 <= k < j ==> #[trigger] name_le(out@[k].name@, x.name@),
            decreases out.len() - j,
        {
            j += 1;
        }
        let ghost before = out@;
        proof {
            assert(locations_view(before.insert(j as int, x)) =~= locations_view(before).insert(
                j as int,
                x@,
            ));
            to_multiset_insert(locations_view(before), j as int, x@);
            assert(locations_view(v@.subrange(0, i + 1)) =~= locations_view(
                v@.subrange(0, i as int),
            ).push(x@));
            to_multiset_build(locations_view(v@.subrange(0, i as int)), x@);
        }
        out.insert(j, x);
        proof {
            assert forall|a: int, b: int| 0 <= a < b < out@.len() implies #[trigger] name_le(
                out@[a].name@,
                out@[b].name@,
            ) by {
                if b < j {
                    assert(out@[a] == before[a] && out@[b] == before[b]);
                } else if b == j {
                    assert(out@[a] == before[a]);
                } else if a == j {
                    assert(out@[b] == before[b - 1]);
                    assert(!name_le(before[j as int].name@, x.name@));
                    lemma_name_le_total(before[j as int].name@, x.name@);
                    if b - 1 > j {
                        assert(name_le(before[j as int].name@, before[b - 1].name@));
                        lemma_name_le_transitive(
                            x.name@,
                            before[j as int].name@,
                            before[b - 1].name@,
                        );
                    }
                } else if a < j {
                    assert(out@[a] == before[a] && out@[b] == before[b - 1]);
                } else {
                    assert(out@[a] == before[a - 1] && out@[b] == before[b - 1]);
                }
            }
        }
        i += 1;
    }
    proof {
        assert(v@.subrange(0, v@.len() as int) =~= v@);
        assert forall|a: int, b: int| 0 <= a < b < locations_view(out@).len() implies #[trigger] name_le(
            locations_view(out@)[a].0,
            locations_view(out@)[b].0,
        ) by {
            assert(name_le(out@[a].name@, out@[b].name@));
        }
    }
    out
}

/// Discovery: every benchmark of the listed categories, ordered by name.
pub fn discover_benchmarks(listings: &Vec<CategoryListing>) -> (r: Vec<BenchmarkLocation>)
    ensures
        sorted_by_name(locations_view(r@)),
        locations_view(r@).to_multiset() == found(listings@).to_multiset(),
{
    let all = collect_benchmarks(listings);
    sort_by_name(&all)
}

/// The locations whose benchmark is called `name`, in order.
pub open spec fn named(locations: Seq<(Seq<char>, Seq<char>)>, name: Seq<char>) -> Seq<
    (Seq<char>, Seq<char>),
>
    decreases locations.len(),
{
    if locations.len() == 0 {
        Seq::empty()
    } else {
        let rest = named(locations.drop_last(), name);
        if locations.last().0 == name {
            rest.push(locations.last())
        } else {
            rest
        }
    }
}

/// The benchmarks to run: all of them for `all`, else those called `name`.
pub fn select_benchmarks(locations: &Vec<BenchmarkLocation>, name: &str) -> (r: Vec<
    BenchmarkLocation,
>)
    ensures
        locations_view(r@) == (if name@ == "all"@ {
            locations_view(locations@)
        } else {
            named(locations_view(locations@), name@)
        }),
{
    let everything = same_text(name, "all");
    let mut out: Vec<BenchmarkLocation> = Vec::new();
    let mut i: usize = 0;
    proof {
        assert(locations_view(locations@.subrange(0, 0)) =~= Seq::<(Seq<char>, Seq<char>)>::empty());
        assert(locations_view(out@) =~= Seq::<(Seq<char>, Seq<char>)>::empty());
    }
    while i < locations.len()
        invariant
            i <= locations.len(),
            everything == (name@ == "all"@),
            locations_view(out@) == (if everything {
                locations_view(locations@.subrange(0, i as int))
            } else {
                named(locations_view(locations@.subrange(0, i as int)), name@)
            }),
        decreases locations.len() - i,
    {
        let ghost before = out@;
        let ghost sub = locations_view(locations@.subrange(0, i as int));
        let ghost next = locations_view(locations@.subrange(0, i + 1));
        proof {
            assert(next.drop_last() =~= sub);
            assert(next.last() == locations@[i as int]@);
            assert(next =~= sub.push(locations@[i as int]@));
        }
        let keep = everything || same_text(locations[i].name.as_str(), name);
        if keep {
            out.push(locations[i].duplicate());
            proof {
                assert(locations_view(out@) =~= locations_view(before).push(locations@[i as int]@));
            }
        }
        i += 1;
    }
    proof {
        assert(locations@.subrange(0, locations@.len() as int) =~= locations@);
    }
    out
}

} // verus!
