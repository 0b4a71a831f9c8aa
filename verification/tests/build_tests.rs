use mole::store::{PathTable, TemplateStore};
use mole::{Build, SourceFile, TemplateFile};

fn tf(name: &str, source: &str, path: &str) -> TemplateFile {
    TemplateFile { name: name.to_string(), source: source.to_string(), path: path.to_string() }
}

fn sf(path: &str, content: &str) -> SourceFile {
    SourceFile { path: path.to_string(), content: content.to_string() }
}

fn pulled_in(arg: &str) -> String {
    format!("{{% inc{} {} %}}", "lude", arg)
}

#[test]
fn store_keeps_first_entry_on_collision() {
    let mut store = TemplateStore::new();
    assert!(store.insert("default".to_string(), "one".to_string(), true).is_none());
    let report = store.insert("default".to_string(), "two".to_string(), true);
    assert!(report.is_some());
    assert!(report.unwrap().contains("\"default\" already exists as a layout"));
    assert_eq!("one", store.lookup("default").unwrap());
    let report = store.insert("default".to_string(), "three".to_string(), false);
    assert!(report.unwrap().contains("\"default\" already exists as a includes"));
}

#[test]
fn includes_collects_collision_reports() {
    let b = Build::new("_out".to_string(), false);
    let files = vec![tf("a", "A", "p/a.html"), tf("a", "B", "q/a.html"), tf("b", "B", "p/b.html")];
    let (b, diags) = b.includes(&files, true);
    assert_eq!(1, diags.len());
    assert!(diags[0].contains("\"a\" already exists as a layout"));
    assert_eq!("A", b.store.lookup("a").unwrap());
    assert_eq!(3, b.layouts.len());
}

#[test]
fn articles_before_layouts_is_refused() {
    let b = Build::new("_out".to_string(), false);
    let files = vec![sf("a.md", "---\nlayout:page\ntitle:a\n---\nx")];
    match b.articles(&files) {
        Err(e) => assert!(e.message().contains("empty layout list")),
        Ok(_) => assert!(false, "expected the build to be refused"),
    }
}

#[test]
fn articles_skips_only_failing_files() {
    let b = Build::new("_out".to_string(), false);
    let (b, _) = b.includes(&vec![tf("default", "{{page.content}}", "d.html")], true);
    let files = vec![
        sf("good.md", "---\nlayout:page\ntitle:a\n---\nx"),
        sf("bad.md", "no header here"),
        sf("good2.md", "---\nlayout:page\ntitle:b\n---\ny"),
    ];
    let (b, diags) = b.articles(&files).unwrap();
    assert_eq!(2, b.articles.len());
    assert_eq!(vec!["good.md".to_string(), "good2.md".to_string()], b.article_paths);
    assert_eq!(1, diags.len());
    assert!(diags[0].contains("Invalid configuration:"));
}

#[test]
fn tag_index_lists_both_urls_in_discovery_order() {
    let b = Build::new("_out".to_string(), false);
    let (b, _) = b.includes(&vec![tf("default", "{{page.content}}", "d.html")], true);
    let files = vec![
        sf("one.md", "---\nlayout:page\ntitle:one\ntags:shared, solo\n---\nx"),
        sf("two.md", "---\nlayout:page\ntitle:two\ntags:shared\n---\ny"),
    ];
    let (b, _) = b.articles(&files).unwrap();
    let idx = mole::build_index(&b.articles, true);
    assert_eq!(2, idx.len());
    assert_eq!("shared", idx[0].key);
    assert_eq!(vec!["one.html".to_string(), "two.html".to_string()], idx[0].urls);
    assert_eq!("solo", idx[1].key);
    assert_eq!(vec!["one.html".to_string()], idx[1].urls);
}

#[test]
fn run_renders_all_articles() {
    let b = Build::new("_out".to_string(), false);
    let (b, _) = b.includes(&vec![tf("default", "{{page.content}}", "d.html")], true);
    let files = vec![
        sf("one.md", "---\nlayout:page\ntitle:one\n---\ncat"),
        sf("two.md", "---\nlayout:page\ntitle:two\n---\ndog"),
    ];
    let (b, _) = b.articles(&files).unwrap();
    let mut warnings: Vec<String> = Vec::new();
    let report = b.run(&mut warnings).unwrap();
    assert_eq!(2, report.pages.len());
    assert_eq!(("one.html".to_string(), "<p>cat</p>\n".to_string()), report.pages[0]);
    assert_eq!(("two.html".to_string(), "<p>dog</p>\n".to_string()), report.pages[1]);
    assert!(report.failures.is_empty());
    assert!(report.grouped.is_empty());
}

#[test]
fn run_renders_global_tag_listing() {
    let b = Build::new("_out".to_string(), false);
    let (b, _) = b.includes(
        &vec![tf("default", "{% for u in global.tags.shared %}{{u}};{% endfor %}", "d.html")],
        true,
    );
    let files = vec![
        sf("one.md", "---\nlayout:page\ntitle:one\ntags:shared\n---\nx"),
        sf("two.md", "---\nlayout:page\ntitle:two\ntags:shared\n---\ny"),
    ];
    let (b, _) = b.articles(&files).unwrap();
    let mut warnings: Vec<String> = Vec::new();
    let report = b.run(&mut warnings).unwrap();
    assert_eq!(2, report.pages.len());
    assert_eq!("one.html;two.html;", report.pages[0].1);
    assert_eq!("one.html;two.html;", report.pages[1].1);
}

#[test]
fn run_groups_template_failures_by_message() {
    let b = Build::new("_out".to_string(), false);
    let (b, _) = b.includes(&vec![tf("default", &pulled_in("'gone'"), "d.html")], true);
    let files = vec![
        sf("one.md", "---\nlayout:page\ntitle:one\n---\nx"),
        sf("two.md", "---\nlayout:page\ntitle:two\n---\ny"),
    ];
    let (b, _) = b.articles(&files).unwrap();
    let mut warnings: Vec<String> = Vec::new();
    let report = b.run(&mut warnings).unwrap();
    assert_eq!(0, report.pages.len());
    // both articles fail with the same engine message: one grouped report
    assert_eq!(1, report.grouped.len());
    assert!(report.grouped[0].contains("files that use this template:"));
    assert!(report.grouped[0].contains("one.md, two.md"));
}

#[test]
fn backtrace_annotates_known_templates() {
    let mut table = PathTable::new();
    table.push("header".to_string(), "_layouts/header.html".to_string());
    let marker_line = format!("from: {{% inc{} 'header' %}}", "lude");
    let error = format!("{}\n    \"header\"\nother", marker_line);
    let translated = mole::parse_backtrace(&error, &table);
    assert!(
        translated.contains("    \"header\"\n    header = _layouts/header.html"),
        "got {}",
        translated
    );
    assert!(translated.contains("other\n"));
}

#[test]
fn backtrace_passes_unknown_templates_through() {
    let table = PathTable::new();
    let marker_line = format!("from: {{% inc{} 'x' %}}", "lude");
    let error = format!("{}\n    \"x\"\ntail", marker_line);
    let translated = mole::parse_backtrace(&error, &table);
    assert_eq!(format!("{}\n    \"x\"\ntail\n", marker_line), translated);
}

#[test]
fn sass_names_outputs_and_compiles() {
    let b = Build::new("_out".to_string(), false);
    let files = vec![sf("style.scss", "a { color: red; }")];
    let (_, out) = b.sass(&files, &vec![]);
    assert_eq!(1, out.len());
    assert_eq!("style.css", out[0].0);
    let css = out[0].1.as_ref().unwrap();
    assert!(css.contains("color: red"));
}

#[test]
fn sass_reports_bad_source() {
    let b = Build::new("_out".to_string(), false);
    let files = vec![sf("bad.scss", "a { color: ")];
    let (_, out) = b.sass(&files, &vec![]);
    assert_eq!("bad.css", out[0].0);
    assert!(out[0].1.is_err());
}

#[test]
fn build_command_defaults() {
    let c = mole::cmds::BuildCommand::default();
    assert_eq!("./_output/", c.dest);
    assert_eq!("_source/", c.source);
    assert_eq!("_include/", c.includes);
    assert_eq!("_layouts/", c.layouts);
    assert_eq!("_articles/", c.articles);
    assert_eq!("_js/", c.js);
}

#[test]
fn subcommands_dispatch() {
    let build = mole::cmds::BuildCommand::default();
    match mole::cmds::SubCommands::BUILD(build).run() {
        Ok(c) => assert_eq!("./_output/", c.dest),
        Err(_) => assert!(false, "expected the build request back"),
    }
    match mole::cmds::SubCommands::INIT(mole::cmds::InitCommand {}).run() {
        Err(m) => assert_eq!("just working on build for now", m),
        Ok(_) => assert!(false, "expected a refusal"),
    }
}
