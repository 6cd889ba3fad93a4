use bench_runner::discovery::{
    bench_root_candidates, categories_to_scan, collect_benchmarks, directory_names,
    discover_benchmarks, find_benches_dir, name_le_exec, resolve_languages, select_benchmarks,
    BenchmarkLocation,
    CategoryListing, DirEntry,
};

fn dir(name: &str) -> DirEntry {
    DirEntry { name: name.to_string(), is_dir: true }
}

fn file(name: &str) -> DirEntry {
    DirEntry { name: name.to_string(), is_dir: false }
}

fn listing(category: &str, entries: Vec<DirEntry>) -> CategoryListing {
    CategoryListing { category: category.to_string(), entries }
}

fn pairs(v: &[BenchmarkLocation]) -> Vec<(String, String)> {
    v.iter().map(|l| (l.name.clone(), l.category.clone())).collect()
}

#[test]
fn empty_root_discovers_nothing() {
    let categories = categories_to_scan(None, &vec![]);
    assert!(categories.is_empty());
    let listings: Vec<CategoryListing> =
        categories.iter().map(|c| listing(c, vec![])).collect();
    assert!(discover_benchmarks(&listings).is_empty());
}

#[test]
fn categories_are_root_subdirectories() {
    let root = vec![dir("compute"), file("README.md"), dir("contract")];
    assert_eq!(categories_to_scan(None, &root), vec!["compute", "contract"]);
}

#[test]
fn category_filter_selects_one_category() {
    let root = vec![dir("compute"), dir("contract")];
    assert_eq!(categories_to_scan(Some("real_world"), &root), vec!["real_world"]);
}

#[test]
fn discovery_orders_by_name_across_categories() {
    let listings = vec![
        listing("compute", vec![dir("n_body"), dir("fibonacci"), file("notes.txt")]),
        listing("contract", vec![dir("aliasing"), dir("purity_opt")]),
        listing("real_world", vec![]),
    ];
    let found = discover_benchmarks(&listings);
    assert_eq!(
        pairs(&found),
        vec![
            ("aliasing".to_string(), "contract".to_string()),
            ("fibonacci".to_string(), "compute".to_string()),
            ("n_body".to_string(), "compute".to_string()),
            ("purity_opt".to_string(), "contract".to_string()),
        ]
    );
}

#[test]
fn equal_names_keep_listing_order() {
    let listings = vec![
        listing("b", vec![dir("sorting")]),
        listing("a", vec![dir("sorting"), dir("alpha")]),
    ];
    let found = discover_benchmarks(&listings);
    assert_eq!(
        pairs(&found),
        vec![
            ("alpha".to_string(), "a".to_string()),
            ("sorting".to_string(), "b".to_string()),
            ("sorting".to_string(), "a".to_string()),
        ]
    );
}

#[test]
fn collect_keeps_listing_order() {
    let listings = vec![listing("x", vec![dir("z"), dir("a")]), listing("y", vec![dir("m")])];
    let found = collect_benchmarks(&listings);
    assert_eq!(
        pairs(&found),
        vec![
            ("z".to_string(), "x".to_string()),
            ("a".to_string(), "x".to_string()),
            ("m".to_string(), "y".to_string()),
        ]
    );
}

#[test]
fn languages_are_subdirectory_names() {
    let entries = vec![dir("c"), file("README"), dir("bmb"), dir("rust")];
    assert_eq!(resolve_languages(&entries), vec!["c", "bmb", "rust"]);
    assert_eq!(directory_names(&vec![file("a")]), Vec::<String>::new());
}

#[test]
fn no_language_subdirectories_resolve_to_nothing() {
    assert!(resolve_languages(&vec![]).is_empty());
    assert!(resolve_languages(&vec![file("main.c")]).is_empty());
}

#[test]
fn name_order_is_lexicographic() {
    assert!(name_le_exec("abc", "abd"));
    assert!(!name_le_exec("abd", "abc"));
    assert!(name_le_exec("ab", "abc"));
    assert!(!name_le_exec("abc", "ab"));
    assert!(name_le_exec("", ""));
    assert!(name_le_exec("same", "same"));
    assert!(name_le_exec("Z", "a"));
}

#[test]
fn root_candidates_in_order() {
    assert_eq!(bench_root_candidates(), vec!["benches", "../benches", "../../benches"]);
}

#[test]
fn benches_dir_is_first_existing_candidate() {
    assert_eq!(find_benches_dir(&vec![false, true, true]), "../benches");
    assert_eq!(find_benches_dir(&vec![false, false, true]), "../../benches");
    assert_eq!(find_benches_dir(&vec![true, true, true]), "benches");
}

#[test]
fn benches_dir_defaults_when_none_exists() {
    assert_eq!(find_benches_dir(&vec![false, false, false]), "benches");
    assert_eq!(find_benches_dir(&vec![]), "benches");
}

fn location(name: &str, category: &str) -> BenchmarkLocation {
    BenchmarkLocation { name: name.to_string(), category: category.to_string() }
}

#[test]
fn all_selects_every_benchmark() {
    let found = vec![location("a", "x"), location("b", "y")];
    assert_eq!(pairs(&select_benchmarks(&found, "all")), pairs(&found));
}

#[test]
fn name_selects_matching_benchmarks() {
    let found = vec![location("sorting", "x"), location("fib", "x"), location("sorting", "y")];
    assert_eq!(
        pairs(&select_benchmarks(&found, "sorting")),
        vec![
            ("sorting".to_string(), "x".to_string()),
            ("sorting".to_string(), "y".to_string()),
        ]
    );
    assert!(select_benchmarks(&found, "missing").is_empty());
}
