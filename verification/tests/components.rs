//! Component-level tests: values, front-matter splitting, ids, dates,
//! pagination, layouts, converters and configuration.

use sushi_gen::value::{FmValue, assoc_get, assoc_set, assoc_set_default, assoc_remove, str_eq};
use sushi_gen::frontmatter::split_front_matter;
use sushi_gen::ids::{fnv64_of_str, u64_to_decimal, page_id_of_url};
use sushi_gen::dates::resolve_date_string;
use sushi_gen::paginate::{calc_batch_num, split_stem_ext, split_on_char, Paginator, BatchIterator};
use sushi_gen::layout::{Layout, layout_chain, plan_page_output, PageEmitPlan, merge_layout_into_page};
use sushi_gen::converters::{load_converters, choose_converter, ConverterKind, DummyConverter, Converter};
use sushi_gen::config::{string_from_config, decide_site_config, decide_theme_config, get_theme_name, merge_table_under, extract_important_config};
use sushi_gen::tree::{name_is_hidden, is_page_ext, decide_to_ext, page_output_name, page_url, effective_front_matter};
use sushi_gen::BuildError;

fn text(s: &str) -> FmValue {
    FmValue::Text(s.to_string())
}

fn dict(entries: Vec<(&str, FmValue)>) -> Vec<(String, FmValue)> {
    entries.into_iter().map(|(k, v)| (k.to_string(), v)).collect()
}

fn strings(v: Vec<&str>) -> Vec<String> {
    v.into_iter().map(|s| s.to_string()).collect()
}

#[test]
fn assoc_list_basics() {
    let mut m = dict(vec![("a", text("1")), ("b", text("2"))]);
    assert_eq!(assoc_get(&m, "a"), Some(&text("1")));
    assert_eq!(assoc_get(&m, "c"), None);
    assoc_set(&mut m, "a".to_string(), text("3"));
    assert_eq!(assoc_get(&m, "a"), Some(&text("3")));
    assoc_set_default(&mut m, "a".to_string(), text("9"));
    assert_eq!(assoc_get(&m, "a"), Some(&text("3")));
    assoc_set_default(&mut m, "c".to_string(), text("4"));
    assert_eq!(assoc_get(&m, "c"), Some(&text("4")));
    assoc_remove(&mut m, "b");
    assert_eq!(assoc_get(&m, "b"), None);
    assert!(str_eq("héllo", "héllo"));
    assert!(!str_eq("a", "b"));
}

#[test]
fn front_matter_split_with_block() {
    let lines = strings(vec!["", "---", "title: x", "----  ", "body one", "body two"]);
    let (block, body) = split_front_matter(&lines);
    assert_eq!(block, Some(strings(vec!["title: x"])));
    assert_eq!(body, strings(vec!["body one", "body two"]));
}

#[test]
fn front_matter_split_without_block() {
    let lines = strings(vec!["  ", "plain text", "---", "more"]);
    let (block, body) = split_front_matter(&lines);
    assert_eq!(block, None);
    assert_eq!(body, strings(vec!["plain text", "---", "more"]));
}

#[test]
fn front_matter_unclosed_block() {
    let lines = strings(vec!["---", "a: 1", "b: 2"]);
    let (block, body) = split_front_matter(&lines);
    assert_eq!(block, Some(strings(vec!["a: 1", "b: 2"])));
    assert_eq!(body, Vec::<String>::new());
}

#[test]
fn stable_hash_and_decimal() {
    assert_eq!(fnv64_of_str(""), 14695981039346656037u64);
    assert_eq!(fnv64_of_str("/a.html"), 11729004551237143660u64);
    assert_eq!(u64_to_decimal(0), "0");
    assert_eq!(u64_to_decimal(90553), "90553");
    assert_eq!(page_id_of_url("/a.html"), "11729004551237143660");
}

#[test]
fn date_fallback_chain() {
    // the RFC 3339 parse decides; a wrapper that echoed its input could not
    // produce this instant
    assert_eq!(resolve_date_string("2020-01-01T00:00:00+00:00", 7), 1577836800);
    // unparsable dates fall back to the clock value
    assert_eq!(resolve_date_string("not a date", 7), 7);
}

#[test]
fn batch_count_is_ceiling() {
    assert_eq!(calc_batch_num(10, 3), 4);
    assert_eq!(calc_batch_num(9, 3), 3);
    assert_eq!(calc_batch_num(0, 3), 0);
    assert_eq!(calc_batch_num(1, 10), 1);
}

#[test]
fn batches_have_expected_sizes() {
    let items: Vec<FmValue> = (0..10).map(FmValue::Int).collect();
    let base = strings(vec!["list.html"]);
    let p = Paginator::new(items, 3, base);
    assert_eq!(p.batch_paths().len(), 4);
    assert_eq!(p.batch_paths()[0], strings(vec!["list.html"]));
    assert_eq!(p.batch_paths()[1], strings(vec!["list", "1.html"]));
    assert_eq!(p.batch_paths()[3], strings(vec!["list", "3.html"]));
    assert_eq!(p.base_url_dir(), strings(vec!["list"]));
    let mut it = p.batch_iter();
    assert_eq!(it.current_batch(), 0);
    let (path0, batch0) = it.next_batch().unwrap();
    assert_eq!(path0, strings(vec!["list.html"]));
    assert_eq!(batch0.len(), 3);
    assert_eq!(batch0[0], FmValue::Int(0));
    let (_, batch1) = it.next_batch().unwrap();
    assert_eq!(batch1.len(), 3);
    let (_, _batch2) = it.next_batch().unwrap();
    let (path3, batch3) = it.next_batch().unwrap();
    assert_eq!(path3, strings(vec!["list", "3.html"]));
    assert_eq!(batch3.len(), 1);
    assert_eq!(batch3[0], FmValue::Int(9));
    assert_eq!(it.current_batch(), 4);
    assert!(it.next_batch().is_none());
}

#[test]
fn pagination_expression_resolution() {
    let globals = dict(vec![(
        "site",
        FmValue::Dict(dict(vec![("posts", FmValue::List(vec![text("p1"), text("p2")]))])),
    )]);
    let p = Paginator::from_expression_and_object(
        &globals,
        &"site.posts".to_string(),
        1,
        strings(vec!["idx.html"]),
    )
    .unwrap();
    assert_eq!(p.seq, vec![text("p1"), text("p2")]);
    assert_eq!(p.batch_num(), 2);
    // a middle segment that is not a mapping fails
    assert!(matches!(
        Paginator::from_expression_and_object(
            &globals,
            &"site.posts.deep".to_string(),
            1,
            strings(vec!["idx.html"]),
        ),
        Err(BuildError::PaginationExpressionInvalid)
    ));
    // a missing segment fails
    assert!(Paginator::from_expression_and_object(
        &globals,
        &"site.missing".to_string(),
        1,
        strings(vec!["idx.html"]),
    )
    .is_err());
    // a final segment that is a mapping fails
    assert!(Paginator::from_expression_and_object(
        &globals,
        &"site".to_string(),
        1,
        strings(vec!["idx.html"]),
    )
    .is_err());
}

#[test]
fn split_helpers() {
    assert_eq!(split_on_char("a.b.c", '.'), strings(vec!["a", "b", "c"]));
    assert_eq!(split_on_char("abc", '.'), strings(vec!["abc"]));
    let (stem, ext) = split_stem_ext("index.md");
    assert_eq!(stem, "index");
    assert_eq!(ext, "md");
    let (stem, ext) = split_stem_ext("archive.tar.gz");
    assert_eq!(stem, "archive.tar");
    assert_eq!(ext, "gz");
    let (stem, ext) = split_stem_ext("README");
    assert_eq!(stem, "README");
    assert_eq!(ext, "html");
}

#[test]
fn layout_chain_follows_parents() {
    let post = Layout::new(dict(vec![("layout", text("base"))]));
    assert_eq!(post.get_parent(), "base");
    let base = Layout::new(dict(vec![]));
    assert_eq!(base.get_parent(), "");
    let templates = vec![("post".to_string(), post), ("base".to_string(), base)];
    let chain = layout_chain(&templates, &"post".to_string()).unwrap();
    assert_eq!(chain, strings(vec!["post", "base"]));
    // a name the table does not answer to yields an empty chain
    let chain = layout_chain(&templates, &"nope".to_string()).unwrap();
    assert_eq!(chain, Vec::<String>::new());
}

#[test]
fn layout_cycle_is_fatal() {
    let a = Layout::new(dict(vec![("layout", text("b"))]));
    let b = Layout::new(dict(vec![("layout", text("a"))]));
    let templates = vec![("a".to_string(), a), ("b".to_string(), b)];
    match layout_chain(&templates, &"a".to_string()) {
        Err(BuildError::LayoutCycle(_)) => {}
        other => panic!("expected a layout cycle, got {:?}", other),
    }
}

#[test]
fn page_without_layout_passes_through() {
    // round-trip: no `layout` key means the converted bytes are written as
    // they are
    let config = dict(vec![("title", text("t"))]);
    let templates: Vec<(String, Layout)> = Vec::new();
    let converted = "converted bytes".to_string();
    match plan_page_output(&config, &templates, converted.clone()).unwrap() {
        PageEmitPlan::PassThrough(c) => assert_eq!(c, converted),
        other => panic!("expected pass-through, got {:?}", other),
    }
}

#[test]
fn layout_front_matter_overrides_page_object() {
    let page_config = dict(vec![("title", text("page")), ("layout", text("post"))]);
    let layout_fm = dict(vec![("title", text("layout")), ("layout", text("base")), ("extra", text("e"))]);
    let merged = merge_layout_into_page(&page_config, &layout_fm);
    assert_eq!(assoc_get(&merged, "title"), Some(&text("layout")));
    // the layout's own `layout` key is left out
    assert_eq!(assoc_get(&merged, "layout"), Some(&text("post")));
    assert_eq!(assoc_get(&merged, "extra"), Some(&text("e")));
}

#[test]
fn converter_table_and_choice() {
    let discovered = vec![("md2html".to_string(), strings(vec!["_converters", "md2html"]))];
    let table = load_converters(discovered);
    assert_eq!(table.len(), 3);
    assert_eq!(table[0].0, "md2html");
    match &table[0].1 {
        ConverterKind::External(c) => {
            assert_eq!(c.name, "md2html");
            assert_eq!(c.path, strings(vec!["_converters", "md2html"]));
        }
        other => panic!("expected an external converter, got {:?}", other),
    }
    assert_eq!(table[1].0, "__copy__");
    assert!(matches!(table[1].1, ConverterKind::Copy));
    assert_eq!(table[2].0, "__internal__");
    assert!(matches!(table[2].1, ConverterKind::Internal));
    let choice = vec![("md".to_string(), "md2html".to_string())];
    assert_eq!(choose_converter(&choice, "md"), Some("md2html".to_string()));
    assert_eq!(choose_converter(&choice, "txt"), None);
    let copy = DummyConverter {};
    assert_eq!(copy.convert(vec![1, 2, 3]), vec![1, 2, 3]);
}

#[test]
fn configuration_readers() {
    let config = dict(vec![
        ("url", text("https://example.org")),
        ("convert_ext", FmValue::List(vec![text("md"), FmValue::Int(3), text("markdown")])),
        ("convert_to_ext", FmValue::Dict(dict(vec![("md", text("html")), ("bad", FmValue::Int(1))]))),
        ("taxonomies", FmValue::List(vec![text("tags")])),
    ]);
    assert_eq!(string_from_config("url", &config), Some("https://example.org".to_string()));
    assert_eq!(string_from_config("missing", &config), None);
    let important = extract_important_config(&config);
    assert_eq!(important.convert_ext, strings(vec!["md", "markdown"]));
    assert_eq!(important.convert_to_ext, vec![("md".to_string(), "html".to_string())]);
    assert_eq!(important.taxonomies, strings(vec!["tags"]));
    assert_eq!(important.converter_choice, Vec::<(String, String)>::new());

    assert_eq!(
        decide_site_config(Some("cli".to_string()), Some("yml".to_string()), "dflt".to_string()),
        "cli"
    );
    assert_eq!(decide_site_config(None, Some("yml".to_string()), "dflt".to_string()), "yml");
    assert_eq!(decide_site_config(None, None, "dflt".to_string()), "dflt");
    assert_eq!(decide_theme_config(Some("yml".to_string()), "dflt".to_string()), "yml");
    assert_eq!(decide_theme_config(None, "dflt".to_string()), "dflt");
    match get_theme_name(&dict(vec![("theme_name", text("plain"))])) {
        Ok(n) => assert_eq!(n, "plain"),
        Err(_) => panic!("theme name expected"),
    }
    assert!(matches!(get_theme_name(&dict(vec![])), Err(BuildError::MissingThemeName)));
}

#[test]
fn theme_precedence_in_tables() {
    // a name present in both resolves to the site's version; a name present
    // only in the theme resolves to the theme's
    let site = vec![("post".to_string(), "site/post".to_string())];
    let theme = vec![
        ("post".to_string(), "theme/post".to_string()),
        ("extra".to_string(), "theme/extra".to_string()),
    ];
    let merged = merge_table_under(site, &theme);
    assert_eq!(assoc_get(&merged, "post"), Some(&"site/post".to_string()));
    assert_eq!(assoc_get(&merged, "extra"), Some(&"theme/extra".to_string()));
}

#[test]
fn tree_classification_helpers() {
    assert!(name_is_hidden(".git"));
    assert!(name_is_hidden("_gen"));
    assert!(!name_is_hidden("posts"));
    assert!(!name_is_hidden(""));
    let exts = strings(vec!["md", "markdown"]);
    assert!(is_page_ext("md", &exts));
    assert!(!is_page_ext("png", &exts));
    let table = vec![("md".to_string(), "xml".to_string())];
    assert_eq!(decide_to_ext(&dict(vec![("to_ext", text("txt"))]), "md", &table), "txt");
    assert_eq!(decide_to_ext(&dict(vec![]), "md", &table), "xml");
    assert_eq!(decide_to_ext(&dict(vec![]), "rst", &table), "html");
    assert_eq!(page_output_name("index", "html"), "index.html");
    assert_eq!(
        page_url(&None, &strings(vec!["blog"]), "a", "html"),
        "/blog/a.html"
    );
    assert_eq!(
        page_url(&Some("https://x.y".to_string()), &Vec::new(), "a", "html"),
        "https://x.y/a.html"
    );
}

#[test]
fn effective_front_matter_merging() {
    // the block's keys win over the sidecar's
    let block = dict(vec![("title", text("block"))]);
    let sidecar = dict(vec![("title", text("side")), ("author", text("s"))]);
    let merged = effective_front_matter(Some(block), &sidecar);
    assert_eq!(assoc_get(&merged, "title"), Some(&text("block")));
    assert_eq!(assoc_get(&merged, "author"), Some(&text("s")));
    // a page with no keys at all gets the defaults
    let defaulted = effective_front_matter(None, &Vec::new());
    assert_eq!(assoc_get(&defaulted, "to_ext"), Some(&text("html")));
    assert_eq!(assoc_get(&defaulted, "nolist"), Some(&FmValue::Bool(true)));
}

#[test]
fn error_messages_name_their_cause() {
    assert_eq!(
        BuildError::DuplicateId("x".to_string()).message(),
        "duplicate page id: x"
    );
    assert_eq!(
        BuildError::MissingDirectory("_templates".to_string()).message(),
        "missing directory: _templates"
    );
    assert_eq!(
        BuildError::MissingThemeName.message(),
        "theme_name not found in theme configuration"
    );
    assert_eq!(BuildError::LayoutCycle("a".to_string()).message(), "layout cycle at: a");
    assert_eq!(
        BuildError::PaginationExpressionInvalid.message(),
        "pagination expression did not resolve to a sequence"
    );
}

#[test]
fn reserved_converter_names_cannot_be_shadowed() {
    // a discovered program named like a built-in loses: the copy-through
    // and built-in converters are available whatever the configuration
    let discovered = vec![
    ("__copy__".to_string(), strings(vec!["_converters", "__copy__"])),
        ("md2html".to_string(), strings(vec!["_converters", "md2html"])),
        ("__internal__".to_string(), strings(vec!["_converters", "__internal__"])),
    ];
    let table = load_converters(discovered);
    let copy = table.iter().find(|(n, _)| n == "__copy__").map(|(_, k)| k).unwrap();
    assert!(matches!(copy, ConverterKind::Copy));
    let internal = table.iter().find(|(n, _)| n == "__internal__").map(|(_, k)| k).unwrap();
    assert!(matches!(internal, ConverterKind::Internal));
    let ext = table.iter().find(|(n, _)| n == "md2html").map(|(_, k)| k).unwrap();
    assert!(matches!(ext, ConverterKind::External(_)));
}
