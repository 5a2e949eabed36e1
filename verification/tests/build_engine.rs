//! Engine-level tests: tree building, id registration, sibling order,
//! staleness, the theme overlay and the emission plan.

use sushi_gen::value::{FmValue, assoc_get};
use sushi_gen::tree::{TreeSettings, SourceEntry, SiteTreeNode, SiteTree, build_site_tree};
use sushi_gen::stale::{OutputSnapshot, ExistingTreeNode, SkipSettings, decide_not_skip_page, decide_not_skip_static};
use sushi_gen::site::{plan_emission, EmitAction, sorted_page_indices, gen_all_pages_object, gen_taxo_object, gen_site_tree_object, page_config_of, batch_url_from_dest, Site};
use sushi_gen::taxonomy::build_taxonomies;
use sushi_gen::theme::merge_source_trees;
use sushi_gen::BuildError;

fn text(s: &str) -> FmValue {
    FmValue::Text(s.to_string())
}

fn dict(entries: Vec<(&str, FmValue)>) -> Vec<(String, FmValue)> {
    entries.into_iter().map(|(k, v)| (k.to_string(), v)).collect()
}

fn strings(v: Vec<&str>) -> Vec<String> {
    v.into_iter().map(|s| s.to_string()).collect()
}

fn settings() -> TreeSettings {
    TreeSettings {
        convert_to_ext: vec![("md".to_string(), "html".to_string())],
        site_url: None,
        now: 1000,
        now_repr: "now".to_string(),
    }
}

fn page_file(name: &str, fm: Vec<(String, FmValue)>, body: &str, ts: i64) -> SourceEntry {
    let stem = name.rsplit_once('.').map(|(s, _)| s).unwrap_or(name).to_string();
    let ext = name.rsplit_once('.').map(|(_, e)| e).unwrap_or("").to_string();
    SourceEntry::PageFile {
        name: name.to_string(),
        stem,
        ext,
        front_matter: Some(fm),
        sidecar: Vec::new(),
        body: body.to_string(),
        timestamp: ts,
    }
}

fn static_file(name: &str, ts: i64) -> SourceEntry {
    SourceEntry::StaticFile {
        name: name.to_string(),
        timestamp: ts,
        source: vec![name.to_string()],
    }
}

fn dated(name: &str, id: &str, date: &str, ts: i64) -> SourceEntry {
    page_file(
        name,
        dict(vec![("page_id", text(id)), ("date", text(date))]),
        "body",
        ts,
    )
}

/// Three dated pages in one directory, oldest first by name.
fn three_pages() -> Vec<SourceEntry> {
    vec![
        dated("a.md", "a", "2020-01-01T00:00:00+00:00", 10),
        dated("b.md", "b", "2020-01-02T00:00:00+00:00", 10),
        dated("c.md", "c", "2020-01-03T00:00:00+00:00", 10),
    ]
}

fn build(entries: Vec<SourceEntry>) -> SiteTree {
    build_site_tree(&settings(), &entries).unwrap()
}

fn page_index(tree: &SiteTree, id: &str) -> usize {
    tree.pages.iter().position(|p| p.page_id == id).unwrap()
}

#[test]
fn destinations_extend_parents() {
    // every child's destination is its parent's destination plus its own
    // name, with the extension substituted for pages
    let entries = vec![SourceEntry::Dir {
        name: "blog".to_string(),
        entries: vec![
            dated("a.md", "a", "2020-01-01T00:00:00+00:00", 10),
            static_file("pic.png", 5),
        ],
    }];
    let tree = build(entries);
    let a = &tree.pages[page_index(&tree, "a")];
    assert_eq!(a.dest_path, strings(vec!["blog", "a.html"]));
    assert_eq!(a.url, "/blog/a.html");
    assert_eq!(a.source_path, strings(vec!["blog", "a.md"]));
    let static_dest: Vec<&Vec<String>> = tree
        .nodes
        .iter()
        .filter_map(|n| match n {
            SiteTreeNode::StaticFile { dest_path, .. } => Some(dest_path),
            _ => None,
        })
        .collect();
    assert_eq!(static_dest, vec![&strings(vec!["blog", "pic.png"])]);
}

#[test]
fn hidden_entries_are_skipped() {
    let entries = vec![
        SourceEntry::Dir { name: "_drafts".to_string(), entries: three_pages() },
        static_file(".hidden", 1),
        dated("a.md", "a", "2020-01-01T00:00:00+00:00", 10),
    ];
    let tree = build(entries);
    assert_eq!(tree.pages.len(), 1);
    // root node plus one page node
    assert_eq!(tree.nodes.len(), 2);
}

#[test]
fn duplicate_page_id_is_fatal() {
    let entries = vec![
        dated("a.md", "same", "2020-01-01T00:00:00+00:00", 10),
        dated("b.md", "same", "2020-01-02T00:00:00+00:00", 10),
    ];
    match build_site_tree(&settings(), &entries) {
        Err(BuildError::DuplicateId(id)) => assert_eq!(id, "same"),
        other => panic!("expected a duplicate-id failure, got {:?}", other.is_ok()),
    }
}

#[test]
fn unique_ids_build_cleanly() {
    let tree = build(three_pages());
    assert_eq!(tree.pages.len(), 3);
    let mut ids: Vec<&str> = tree.pages.iter().map(|p| p.page_id.as_str()).collect();
    ids.sort();
    assert_eq!(ids, vec!["a", "b", "c"]);
}

#[test]
fn siblings_are_wired_newest_first() {
    let tree = build(three_pages());
    let a = page_index(&tree, "a");
    let b = page_index(&tree, "b");
    let c = page_index(&tree, "c");
    // order is c (newest), b, a
    assert_eq!(tree.pages[c].last(), None);
    assert_eq!(tree.pages[c].next(), Some(b));
    assert_eq!(tree.pages[b].last(), Some(c));
    assert_eq!(tree.pages[b].next(), Some(a));
    assert_eq!(tree.pages[a].last(), Some(b));
    assert_eq!(tree.pages[a].next(), None);
}

#[test]
fn subdirectory_index_represents_its_directory() {
    let entries = vec![
        SourceEntry::Dir {
            name: "blog".to_string(),
            entries: vec![dated("index.md", "blog-index", "2020-01-02T00:00:00+00:00", 10)],
        },
        dated("a.md", "a", "2020-01-01T00:00:00+00:00", 10),
    ];
    let tree = build(entries);
    let idx = page_index(&tree, "blog-index");
    let a = page_index(&tree, "a");
    // the subdirectory's index page is ordered among the root's pages
    assert_eq!(tree.pages[idx].next(), Some(a));
    assert_eq!(tree.pages[a].last(), Some(idx));
}

fn snapshot_for(tree: &SiteTree, ts: i64) -> OutputSnapshot {
    let entries = tree
        .pages
        .iter()
        .map(|p| {
            (
                p.dest_path.clone(),
                ExistingTreeNode::File { path: p.dest_path.clone(), timestamp: ts },
            )
        })
        .collect();
    OutputSnapshot { entries }
}

fn plain_skip() -> SkipSettings {
    SkipSettings { regen_all: false, naive_skip: false, subpath: None }
}

#[test]
fn fresh_outputs_skip_every_page() {
    // idempotence: outputs newer than sources mean a second run writes
    // nothing
    let tree = build(three_pages());
    let snapshot = snapshot_for(&tree, 100);
    let st = plain_skip();
    for i in 0..tree.pages.len() {
        assert!(!decide_not_skip_page(&st, &snapshot, &tree.pages, i));
    }
    let plan = plan_emission(&tree, &st, &snapshot);
    for action in &plan {
        assert!(!matches!(action, EmitAction::GenPage { .. }));
        assert!(!matches!(action, EmitAction::CopyStatic { .. }));
    }
}

#[test]
fn stale_sibling_propagates() {
    // B's output is stale; a non-naive build regenerates A and C too
    let tree = build(three_pages());
    let a = page_index(&tree, "a");
    let b = page_index(&tree, "b");
    let c = page_index(&tree, "c");
    let entries = tree
        .pages
        .iter()
        .map(|p| {
            let ts = if p.page_id == "b" { 1 } else { 100 };
            (
                p.dest_path.clone(),
                ExistingTreeNode::File { path: p.dest_path.clone(), timestamp: ts },
            )
        })
        .collect();
    let snapshot = OutputSnapshot { entries };
    let st = plain_skip();
    assert!(decide_not_skip_page(&st, &snapshot, &tree.pages, b));
    assert!(decide_not_skip_page(&st, &snapshot, &tree.pages, a));
    assert!(decide_not_skip_page(&st, &snapshot, &tree.pages, c));
    // naive skipping consults only the page's own staleness
    let naive = SkipSettings { regen_all: false, naive_skip: true, subpath: None };
    assert!(decide_not_skip_page(&naive, &snapshot, &tree.pages, b));
    assert!(!decide_not_skip_page(&naive, &snapshot, &tree.pages, a));
    assert!(!decide_not_skip_page(&naive, &snapshot, &tree.pages, c));
}

#[test]
fn static_staleness_and_regen_all() {
    let tree = build(vec![static_file("pic.png", 50)]);
    let (dest, source) = match &tree.nodes[0] {
        SiteTreeNode::StaticFile { dest_path, source, .. } => (dest_path.clone(), source.clone()),
        _ => panic!("expected a static node"),
    };
    let fresh = OutputSnapshot {
        entries: vec![(dest.clone(), ExistingTreeNode::File { path: dest.clone(), timestamp: 60 })],
    };
    let stale = OutputSnapshot {
        entries: vec![(dest.clone(), ExistingTreeNode::File { path: dest.clone(), timestamp: 40 })],
    };
    let empty = OutputSnapshot { entries: Vec::new() };
    let st = plain_skip();
    assert!(!decide_not_skip_static(&st, &fresh, &source, &dest, 50));
    assert!(decide_not_skip_static(&st, &stale, &source, &dest, 50));
    assert!(decide_not_skip_static(&st, &empty, &source, &dest, 50));
    let regen = SkipSettings { regen_all: true, naive_skip: false, subpath: None };
    assert!(decide_not_skip_static(&regen, &fresh, &source, &dest, 50));
}

#[test]
fn subpath_restriction_decides_by_source() {
    let tree = build(three_pages());
    let b = page_index(&tree, "b");
    let snapshot = OutputSnapshot { entries: Vec::new() };
    let st = SkipSettings {
        regen_all: false,
        naive_skip: false,
        subpath: Some(vec![strings(vec!["b.md"])]),
    };
    assert!(decide_not_skip_page(&st, &snapshot, &tree.pages, b));
    let a = page_index(&tree, "a");
    assert!(!decide_not_skip_page(&st, &snapshot, &tree.pages, a));
}

#[test]
fn theme_tree_is_merged_beneath_content() {
    let content = vec![
        SourceEntry::Dir {
            name: "shared".to_string(),
            entries: vec![dated("a.md", "content-a", "2020-01-01T00:00:00+00:00", 10)],
        },
        dated("own.md", "own", "2020-01-01T00:00:00+00:00", 10),
    ];
    let theme = vec![
        SourceEntry::Dir {
            name: "shared".to_string(),
            entries: vec![
                dated("a.md", "theme-a", "2020-01-01T00:00:00+00:00", 10),
                dated("b.md", "theme-b", "2020-01-01T00:00:00+00:00", 10),
            ],
        },
        dated("own.md", "theme-own", "2020-01-01T00:00:00+00:00", 10),
        static_file("theme.css", 3),
    ];
    let merged = merge_source_trees(content, theme);
    let tree = build_site_tree(&settings(), &merged).unwrap();
    let mut ids: Vec<&str> = tree.pages.iter().map(|p| p.page_id.as_str()).collect();
    ids.sort();
    // the content's versions win where names collide; theme-only entries
    // are taken
    assert_eq!(ids, vec!["content-a", "own", "theme-b"]);
    let has_css = tree.nodes.iter().any(|n| match n {
        SiteTreeNode::StaticFile { name, .. } => name == "theme.css",
        _ => false,
    });
    assert!(has_css);
}

#[test]
fn taxonomy_groups_in_discovery_order() {
    let entries = vec![
        page_file(
            "a.md",
            dict(vec![
                ("page_id", text("a")),
                ("date", text("2020-01-01T00:00:00+00:00")),
                ("tags", FmValue::List(vec![text("rust"), text("verus")])),
            ]),
            "",
            10,
        ),
        page_file(
            "b.md",
            dict(vec![
                ("page_id", text("b")),
                ("date", text("2020-01-02T00:00:00+00:00")),
                ("tags", FmValue::List(vec![text("rust")])),
            ]),
            "",
            10,
        ),
    ];
    let tree = build(entries);
    let taxos = strings(vec!["tags"]);
    let index = build_taxonomies(&taxos, &tree.pages);
    assert_eq!(index.len(), 1);
    assert_eq!(index[0].0, "tags");
    let kinds = &index[0].1;
    assert_eq!(kinds.len(), 2);
    assert_eq!(kinds[0].0, "rust");
    assert_eq!(kinds[0].1, strings(vec!["a", "b"]));
    assert_eq!(kinds[1].0, "verus");
    assert_eq!(kinds[1].1, strings(vec!["a"]));
    let object = gen_taxo_object(&index);
    assert_eq!(object.len(), 2);
    assert_eq!(object[0].0, "tags");
    assert_eq!(object[1].0, "_keys");
}

#[test]
fn page_config_carries_computed_fields() {
    let tree = build(three_pages());
    let b = page_index(&tree, "b");
    let config = page_config_of(&tree.pages, b);
    assert_eq!(assoc_get(&config, "page_id"), Some(&text("b")));
    assert_eq!(assoc_get(&config, "url"), Some(&text("/b.html")));
    assert_eq!(assoc_get(&config, "date"), Some(&text("2020-01-02T00:00:00+00:00")));
    assert_eq!(assoc_get(&config, "path"), Some(&text("b.md")));
    // sibling links resolve to ids: c is newer, a older
    assert_eq!(assoc_get(&config, "last"), Some(&text("c")));
    assert_eq!(assoc_get(&config, "next"), Some(&text("a")));
}

#[test]
fn global_objects_list_pages_newest_first() {
    let tree = build(three_pages());
    let sorted = sorted_page_indices(&tree.pages);
    let ids: Vec<&str> = sorted.iter().map(|&i| tree.pages[i].page_id.as_str()).collect();
    assert_eq!(ids, vec!["c", "b", "a"]);
    match gen_all_pages_object(&tree.pages, &sorted) {
        FmValue::List(xs) => {
            assert_eq!(xs, vec![text("c"), text("b"), text("a")]);
        }
        other => panic!("expected a sequence, got {:?}", other),
    }
    let nav = gen_site_tree_object(&tree);
    match nav {
        FmValue::Dict(entries) => match assoc_get(&entries, "_list") {
            Some(FmValue::List(xs)) => {
                assert_eq!(xs, &vec![text("c"), text("b"), text("a")]);
            }
            other => panic!("expected the page list, got {:?}", other),
        },
        other => panic!("expected a mapping, got {:?}", other),
    }
}

#[test]
fn batch_urls_follow_destinations() {
    assert_eq!(
        batch_url_from_dest(&None, &strings(vec!["blog", "list.html"])),
        "/blog/list.html"
    );
    assert_eq!(
        batch_url_from_dest(&Some("https://x.y".to_string()), &strings(vec!["list", "1.html"])),
        "https://x.y/list/1.html"
    );
}

#[test]
fn directory_in_place_of_output_counts_as_stale() {
    let tree = build(three_pages());
    let a = page_index(&tree, "a");
    let entries = vec![(
        tree.pages[a].dest_path.clone(),
        ExistingTreeNode::NormalDir { path: tree.pages[a].dest_path.clone() },
    )];
    let snapshot = OutputSnapshot { entries };
    let naive = SkipSettings { regen_all: false, naive_skip: true, subpath: None };
    assert!(decide_not_skip_page(&naive, &snapshot, &tree.pages, a));
}

#[test]
fn build_phase_composes() {
    let site = Site {
        config: dict(vec![("url", text("https://x.y"))]),
        site_url: Some("https://x.y".to_string()),
        templates: Vec::new(),
        converters: Vec::new(),
        important: sushi_gen::config::extract_important_config(&dict(vec![(
            "taxonomies",
            FmValue::List(vec![text("tags")]),
        )])),
        skip: SkipSettings { regen_all: true, naive_skip: false, subpath: None },
        snapshot: OutputSnapshot { entries: Vec::new() },
    };
    let built = site
        .generate_site(1000, "now".to_string(), three_pages(), None)
        .unwrap();
    assert_eq!(built.tree.pages.len(), 3);
    assert_eq!(built.taxo_index.len(), 1);
    let ids: Vec<&str> = built
        .sorted
        .iter()
        .map(|&i| built.tree.pages[i].page_id.as_str())
        .collect();
    assert_eq!(ids, vec!["c", "b", "a"]);
    // regenerating everything plans one write per page
    let gens = built
        .plan
        .iter()
        .filter(|a| matches!(a, EmitAction::GenPage { .. }))
        .count();
    assert_eq!(gens, 3);
}
