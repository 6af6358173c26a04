use nextjs_crawler::classify::{classify, convention_from_name, extension_of, is_route_file, parse_route_name, Convention};
use nextjs_crawler::crawl::{insert_route_files, CrawlCondition};
use nextjs_crawler::segment::reduce_segment;
use nextjs_crawler::tree::RouteNode;

fn strings(parts: &[&str]) -> Vec<String> {
    parts.iter().map(|p| p.to_string()).collect()
}

fn child<'a>(node: &'a RouteNode, name: &str) -> &'a RouteNode {
    node.children.iter().find(|c| c.name == name).unwrap()
}

#[test]
fn reduce_strips_suffixes_and_extension() {
    assert_eq!(reduce_segment("page.js"), "page");
    assert_eq!(reduce_segment("route.js"), "route");
    assert_eq!(reduce_segment("index.page.tsx"), "index");
}

#[test]
fn reduce_passes_plain_directories_through() {
    assert_eq!(reduce_segment("blog"), "blog");
    assert_eq!(reduce_segment("[slug]"), "[slug]");
    assert_eq!(reduce_segment("about.page"), "about");
    assert_eq!(reduce_segment("a.pageb.js"), "ab");
    assert_eq!(reduce_segment("a.page.pagebc"), "abc");
}

#[test]
fn extension_follows_the_last_dot_rule() {
    assert_eq!(extension_of("post.tsx"), Some("tsx".to_string()));
    assert_eq!(extension_of("archive.tar.gz"), Some("gz".to_string()));
    assert_eq!(extension_of("trailing."), Some("".to_string()));
    assert_eq!(extension_of(".gitignore"), None);
    assert_eq!(extension_of("README"), None);
}

#[test]
fn app_router_accepts_exactly_page_and_route_entry_files() {
    assert!(is_route_file(Convention::AppRouter, "page.js"));
    assert!(is_route_file(Convention::AppRouter, "route.js"));
    assert!(!is_route_file(Convention::AppRouter, "Page.js"));
    assert!(!is_route_file(Convention::AppRouter, "page.tsx"));
    assert!(!is_route_file(Convention::AppRouter, "pagex.js"));
}

#[test]
fn pages_router_accepts_exactly_js_tsx_jsx_extensions() {
    assert!(is_route_file(Convention::PagesRouter, "index.js"));
    assert!(is_route_file(Convention::PagesRouter, "post.tsx"));
    assert!(is_route_file(Convention::PagesRouter, "[id].jsx"));
    assert!(!is_route_file(Convention::PagesRouter, "types.ts"));
    assert!(!is_route_file(Convention::PagesRouter, "notes.mdx"));
    assert!(!is_route_file(Convention::PagesRouter, "README"));
}

#[test]
fn classify_reduces_included_paths() {
    let included = classify(Convention::AppRouter, &strings(&["app", "about", "page.js"]));
    assert_eq!(included, Some(strings(&["app", "about", "page"])));
    let excluded = classify(Convention::AppRouter, &strings(&["app", "about", "style.css"]));
    assert_eq!(excluded, None);
    let pages = classify(Convention::PagesRouter, &strings(&["pages", "blog", "[slug].js"]));
    assert_eq!(pages, Some(strings(&["pages", "blog", "[slug]"])));
    assert_eq!(classify(Convention::PagesRouter, &strings(&[])), None);
}

#[test]
fn parse_route_name_reduces_every_component() {
    let parts = parse_route_name(&strings(&["app", "blog.page", "index.page.tsx"]));
    assert_eq!(parts, strings(&["app", "blog", "index"]));
}

#[test]
fn insertion_is_idempotent_on_structure() {
    let mut root = RouteNode::new_root();
    let parts = strings(&["blog", "page"]);
    root.add_route(&parts);
    root.add_route(&parts);
    assert_eq!(root.children.len(), 1);
    let blog = child(&root, "blog");
    assert_eq!(blog.children.len(), 1);
    let page = child(blog, "page");
    assert!(page.children.is_empty());
}

#[test]
fn shared_prefixes_merge_into_one_branch() {
    let mut root = RouteNode::new_root();
    root.add_route(&strings(&["blog", "page"]));
    root.add_route(&strings(&["blog", "comments", "route"]));
    assert_eq!(root.children.len(), 1);
    let blog = child(&root, "blog");
    assert_eq!(blog.children.len(), 2);
    assert!(child(blog, "page").children.is_empty());
    let comments = child(blog, "comments");
    assert_eq!(comments.children.len(), 1);
    assert!(child(comments, "route").children.is_empty());
}

#[test]
fn render_marks_exactly_the_last_child_as_terminal() {
    let mut root = RouteNode::new_root();
    root.add_route(&strings(&["a"]));
    root.add_route(&strings(&["b"]));
    let text = root.render("", true);
    let lines: Vec<&str> = text.lines().collect();
    assert_eq!(lines.len(), 3);
    assert_eq!(lines[0], "└── root");
    let terminal = lines[1..].iter().filter(|l| l.contains("└── ")).count();
    let mid = lines[1..].iter().filter(|l| l.contains("├── ")).count();
    assert_eq!(terminal, 1);
    assert_eq!(mid, 1);
}

#[test]
fn render_extends_prefixes_per_level() {
    let mut root = RouteNode::new_root();
    root.add_route(&strings(&["app", "page"]));
    let text = root.render("", true);
    assert_eq!(text, "└── root\n    └── app\n        └── page\n");
}

#[test]
fn end_to_end_app_router_scenario() {
    let files = vec![
        strings(&["app", "page.js"]),
        strings(&["app", "about", "page.js"]),
        strings(&["app", "blog", "[slug]", "page.js"]),
    ];
    let mut root = RouteNode::new_root();
    insert_route_files(&mut root, Convention::AppRouter, &files);
    assert_eq!(root.name, "root");
    assert_eq!(root.children.len(), 1);
    let app = child(&root, "app");
    assert_eq!(app.children.len(), 3);
    assert!(child(app, "page").children.is_empty());
    let about = child(app, "about");
    assert_eq!(about.children.len(), 1);
    assert!(child(about, "page").children.is_empty());
    let blog = child(app, "blog");
    assert_eq!(blog.children.len(), 1);
    let slug = child(blog, "[slug]");
    assert_eq!(slug.children.len(), 1);
    assert!(child(slug, "page").children.is_empty());
}

#[test]
fn excluded_candidates_add_nothing() {
    let files = vec![
        strings(&["app", "layout.js"]),
        strings(&["app", "util", "helpers.js"]),
    ];
    let mut root = RouteNode::new_root();
    insert_route_files(&mut root, Convention::AppRouter, &files);
    assert!(root.children.is_empty());
}

#[test]
fn missing_subdirectory_leaves_only_the_root() {
    let files: Vec<Vec<String>> = Vec::new();
    let mut root = RouteNode::new_root();
    insert_route_files(&mut root, Convention::PagesRouter, &files);
    assert!(root.children.is_empty());
    assert_eq!(root.render("", true), "└── root\n");
    let warning = CrawlCondition::ConfigurationAbsent(Convention::PagesRouter).message();
    assert_eq!(warning, "The 'pages' folder was not found in the specified path.");
}

#[test]
fn convention_selection_matches_exactly_the_two_names() {
    assert_eq!(convention_from_name("app"), Some(Convention::AppRouter));
    assert_eq!(convention_from_name("pages"), Some(Convention::PagesRouter));
    assert_eq!(convention_from_name("App"), None);
    assert_eq!(convention_from_name(""), None);
}

#[test]
fn condition_messages_name_the_missing_folder() {
    let app = CrawlCondition::ConfigurationAbsent(Convention::AppRouter).message();
    assert_eq!(app, "The 'app' folder was not found in the specified path.");
    let invalid = CrawlCondition::InvalidSelection.message();
    assert_eq!(invalid, "Invalid selection. Please choose 'app' or 'pages'.");
}
