use svgn::ast::{Document, Element, Node};
use svgn::parser::Parser;
use svgn::plugin::{Plugin, PluginInfo};
use svgn::plugins::cleanup_ids::{
    fix_element, find_references, has_scripts, has_styles, renamed_value_of, short_name_of, CleanupIdsConfig,
    CleanupIdsPlugin,
};
use svgn::value::Value;

fn obj(pairs: Vec<(&str, Value)>) -> Value {
    Value::Object(pairs.into_iter().map(|(k, v)| (k.to_string(), v)).collect())
}

fn strs(items: &[&str]) -> Value {
    Value::Array(items.iter().map(|s| Value::String(s.to_string())).collect())
}

fn run(svg: &str, params: Option<&Value>) -> Document {
    let parser = Parser::new();
    let mut document = parser.parse(svg).unwrap();
    let mut plugin = CleanupIdsPlugin;
    plugin.apply(&mut document, &PluginInfo::default(), params).unwrap();
    document
}

#[test]
fn test_remove_unused_ids() {
    let svg = r#"<svg>
            <defs>
                <linearGradient id="unused-gradient">
                    <stop offset="0%" stop-color="red"/>
                </linearGradient>
                <linearGradient id="used-gradient">
                    <stop offset="0%" stop-color="blue"/>
                </linearGradient>
            </defs>
            <rect id="unused-rect" width="100" height="100"/>
            <rect fill="url(#used-gradient)" width="100" height="100"/>
        </svg>"#;

    let document = run(svg, None);

    let defs = document.root.child_elements()[0];
    let unused_gradient = defs.child_elements()[0];
    assert!(!unused_gradient.has_attr("id"));

    let unused_rect = document.root.child_elements()[1];
    assert!(!unused_rect.has_attr("id"));

    let used_gradient = defs.child_elements()[1];
    assert!(used_gradient.has_attr("id"));
}

#[test]
fn test_minify_ids() {
    let svg = r#"<svg>
            <defs>
                <linearGradient id="myVeryLongGradientId">
                    <stop offset="0%" stop-color="red"/>
                </linearGradient>
            </defs>
            <rect fill="url(#myVeryLongGradientId)" width="100" height="100"/>
        </svg>"#;

    let document = run(svg, None);

    let defs = document.root.child_elements()[0];
    let gradient = defs.child_elements()[0];
    let new_id = gradient.attr("id").unwrap();
    assert!(new_id.len() < "myVeryLongGradientId".len());

    let rect = document.root.child_elements()[1];
    let fill = rect.attr("fill").unwrap();
    assert!(fill.contains(&format!("#{}", new_id)));
}

#[test]
fn test_preserve_ids() {
    let svg = r#"<svg>
            <rect id="preserve-me" width="100" height="100"/>
            <rect id="icon-rect" width="50" height="50"/>
            <rect id="normal-rect" width="25" height="25"/>
        </svg>"#;

    let params = obj(vec![("preserve", strs(&["preserve-me"])), ("preservePrefixes", strs(&["icon-"]))]);
    let document = run(svg, Some(&params));

    let rect1 = document.root.child_elements()[0];
    assert_eq!(rect1.attr("id"), Some(&"preserve-me".to_string()));

    let rect2 = document.root.child_elements()[1];
    assert_eq!(rect2.attr("id"), Some(&"icon-rect".to_string()));

    let rect3 = document.root.child_elements()[2];
    assert!(!rect3.has_attr("id"));
}

#[test]
fn test_skip_with_scripts() {
    let svg = r#"<svg>
            <script>console.log('test');</script>
            <rect id="unused-rect" width="100" height="100"/>
        </svg>"#;

    let document = run(svg, None);

    let rect = document.root.child_elements()[1];
    assert!(rect.has_attr("id"));
}

#[test]
fn test_short_names_run_in_bijective_base_52() {
    assert_eq!(short_name_of(1), "a");
    assert_eq!(short_name_of(26), "z");
    assert_eq!(short_name_of(27), "A");
    assert_eq!(short_name_of(52), "Z");
    assert_eq!(short_name_of(53), "aa");
    assert_eq!(short_name_of(104), "aZ");
    assert_eq!(short_name_of(105), "ba");
    assert_eq!(short_name_of(2756), "ZZ");
    assert_eq!(short_name_of(2757), "aaa");
}

#[test]
fn test_find_references_kinds() {
    assert_eq!(find_references("fill", "url(#a) url('#b')"), vec!["a".to_string(), "b".to_string()]);
    assert_eq!(find_references("style", "fill:url(#g1);stroke:url(\"#g2\")"), vec!["g1".to_string(), "g2".to_string()]);
    assert_eq!(find_references("href", "#x"), vec!["x".to_string()]);
    assert_eq!(find_references("xlink:href", "#y"), vec!["y".to_string()]);
    assert_eq!(find_references("begin", "foo.click"), vec!["foo".to_string()]);
    assert!(find_references("width", "url(#a)").is_empty());
    assert!(find_references("href", "http://example.com/#a").is_empty());
}

#[test]
fn test_renamed_value_replaces_each_form() {
    let m = vec![("long".to_string(), "a".to_string(), "long".to_string())];
    assert_eq!(renamed_value_of("fill", "url(#long)", &m), "url(#a)");
    assert_eq!(renamed_value_of("fill", "url('#long')", &m), "url('#a')");
    assert_eq!(renamed_value_of("href", "#long", &m), "#a");
    assert_eq!(renamed_value_of("href", "#longer", &m), "#longer");
    assert_eq!(renamed_value_of("begin", "long.end+1s", &m), "a.end+1s");
    assert_eq!(renamed_value_of("width", "url(#long)", &m), "url(#long)");
}

#[test]
fn test_percent_encoded_reference_is_renamed() {
    let m = vec![("a b".to_string(), "c".to_string(), "a%20b".to_string())];
    assert_eq!(renamed_value_of("fill", "url(\"#a%20b\")", &m), "url(\"#c\")");
}

#[test]
fn test_links_and_timing_follow_renaming() {
    let svg = r##"<svg><circle id="longName"/><use href="#longName"/><animate begin="longName.click"/></svg>"##;
    let document = run(svg, None);
    let kids = document.root.child_elements();
    assert_eq!(kids[0].attr("id"), Some(&"a".to_string()));
    assert_eq!(kids[1].attr("href"), Some(&"#a".to_string()));
    assert_eq!(kids[2].attr("begin"), Some(&"a.click".to_string()));
}

#[test]
fn test_existing_short_id_is_not_reused() {
    let svg = r##"<svg><rect id="a"/><g id="longName"/><use href="#longName"/></svg>"##;
    let document = run(svg, None);
    let kids = document.root.child_elements();
    assert!(!kids[0].has_attr("id"));
    assert_eq!(kids[1].attr("id"), Some(&"b".to_string()));
    assert_eq!(kids[2].attr("href"), Some(&"#b".to_string()));
}

#[test]
fn test_preserved_names_are_not_given() {
    let svg = r##"<svg><g id="longName"/><use href="#longName"/></svg>"##;
    let params = obj(vec![("preserve", strs(&["a"]))]);
    let document = run(svg, Some(&params));
    let kids = document.root.child_elements();
    assert_eq!(kids[0].attr("id"), Some(&"b".to_string()));
    assert_eq!(kids[1].attr("href"), Some(&"#b".to_string()));
}

#[test]
fn test_two_references_get_two_names() {
    let svg = r##"<svg><g id="first"/><g id="second"/><use href="#first"/><use href="#second"/></svg>"##;
    let document = run(svg, None);
    let kids = document.root.child_elements();
    let a = kids[0].attr("id").unwrap().clone();
    let b = kids[1].attr("id").unwrap().clone();
    assert_ne!(a, b);
    assert!(a == "a" || a == "b");
    assert!(b == "a" || b == "b");
    assert_eq!(kids[2].attr("href"), Some(&format!("#{}", a)));
    assert_eq!(kids[3].attr("href"), Some(&format!("#{}", b)));
}

#[test]
fn test_minify_off_keeps_used_ids() {
    let svg = r##"<svg><g id="used"/><g id="unused"/><use href="#used"/></svg>"##;
    let params = obj(vec![("minify", Value::Bool(false))]);
    let document = run(svg, Some(&params));
    let kids = document.root.child_elements();
    assert_eq!(kids[0].attr("id"), Some(&"used".to_string()));
    assert!(!kids[1].has_attr("id"));
    assert_eq!(kids[2].attr("href"), Some(&"#used".to_string()));
}

#[test]
fn test_remove_off_keeps_unused_ids() {
    let svg = r##"<svg><g id="unused"/></svg>"##;
    let params = obj(vec![("remove", Value::Bool(false))]);
    let document = run(svg, Some(&params));
    assert_eq!(document.root.child_elements()[0].attr("id"), Some(&"unused".to_string()));
}

#[test]
fn test_only_first_of_duplicate_ids_changes() {
    let svg = r##"<svg><g id="dup"/><g id="dup"/><use href="#dup"/></svg>"##;
    let document = run(svg, None);
    let kids = document.root.child_elements();
    assert_eq!(kids[0].attr("id"), Some(&"a".to_string()));
    assert_eq!(kids[1].attr("id"), Some(&"dup".to_string()));
    assert_eq!(kids[2].attr("href"), Some(&"#a".to_string()));
}

#[test]
fn test_force_works_despite_scripts() {
    let svg = r##"<svg><script>x()</script><rect id="unused"/></svg>"##;
    let params = obj(vec![("force", Value::Bool(true))]);
    let document = run(svg, Some(&params));
    assert!(!document.root.child_elements()[1].has_attr("id"));
}

#[test]
fn test_script_and_style_detection() {
    let parser = Parser::new();
    let d = parser.parse(r#"<svg><g><rect onclick="f()"/></g></svg>"#).unwrap();
    assert!(has_scripts(&d.root));
    let d = parser.parse(r#"<svg><a href="  javascript:go()"/></svg>"#).unwrap();
    assert!(has_scripts(&d.root));
    let d = parser.parse(r#"<svg><a href="http://x"/><script/></svg>"#).unwrap();
    assert!(!has_scripts(&d.root));
    let d = parser.parse(r#"<svg><g><style>.a{}</style></g></svg>"#).unwrap();
    assert!(has_styles(&d.root));
    let d = parser.parse(r#"<svg><style/></svg>"#).unwrap();
    assert!(!has_styles(&d.root));
}

#[test]
fn test_cleanup_ids_config_from_params() {
    let params = obj(vec![
        ("remove", Value::Bool(false)),
        ("preserve", strs(&["x", "y"])),
        ("preservePrefixes", strs(&["p-"])),
    ]);
    let c = CleanupIdsConfig::from_params(Some(&params));
    assert!(!c.remove);
    assert!(c.minify);
    assert!(!c.force);
    assert_eq!(c.preserve, vec!["x".to_string(), "y".to_string()]);
    assert!(c.is_id_preserved("p-1"));
    assert!(c.is_id_preserved("y"));
    assert!(!c.is_id_preserved("z"));
    let d = CleanupIdsConfig::from_params(None);
    assert!(d.remove && d.minify && !d.force && d.preserve.is_empty());
}

#[test]
fn test_fix_element_with_given_renamings() {
    let mut root = Element::new("svg");
    let mut g = Element::new("g");
    g.attributes.insert("id".to_string(), "old".to_string());
    let mut r = Element::new("rect");
    r.attributes.insert("fill".to_string(), "url(#old)".to_string());
    root.children.push(Node::Element(g));
    root.children.push(Node::Element(r));
    let renames = vec![("old".to_string(), "n".to_string(), "old".to_string())];
    let refs = vec!["old".to_string()];
    let config = CleanupIdsConfig::from_params(None);
    let mut seen = Vec::new();
    fix_element(&mut root, &mut seen, &renames, &refs, &config);
    let kids = root.child_elements();
    assert_eq!(kids[0].attr("id"), Some(&"n".to_string()));
    assert_eq!(kids[1].attr("fill"), Some(&"url(#n)".to_string()));
    assert_eq!(seen, vec!["old".to_string()]);
}
