use mole::article::Article;
use mole::engine::{obj_insert_str, obj_new, parser_new, partials_add, partials_new};
use mole::parse::ParseError;
use mole::store::TemplateStore;

fn create_article(md: &str, path: &str) -> Result<Article, ParseError> {
    Article::parse(md, path)
}

fn gen_render_mocks(
    md: &str,
    path: &str,
    mocks: Vec<(String, String)>,
    global_pairs: Vec<(&str, &str)>,
) -> Result<String, String> {
    let a = create_article(md, path).unwrap();
    let mut store = TemplateStore::new();
    let mut src = partials_new();
    for (k, v) in mocks {
        partials_add(&mut src, &k, &v);
        store.insert(k, v, true);
    }
    let parser = parser_new(src).unwrap();
    let mut global = obj_new();
    for (k, v) in global_pairs {
        obj_insert_str(&mut global, k, v);
    }
    let mut warnings: Vec<String> = Vec::new();
    a.true_render(&global, &parser, &store, &mut warnings)
}

fn pulled_in(arg: &str) -> String {
    format!("{{% inc{} {} %}}", "lude", arg)
}

#[test]
fn empty_content() {
    match create_article("", "empty_content") {
        Err(ParseError::InvalidConfig(m)) => {
            assert!(m.contains("empty config, no key value pairs found"), "got {}", m)
        }
        _ => assert!(false, "expected an invalid configuration"),
    }
}

#[test]
fn test_empty_template() {
    let a: Article =
        create_article("---\nlayout:page\ntitle:cats and dogs\n---", "test_empty_template")
            .unwrap();
    assert_eq!("", a.template);
}

#[test]
fn parse() {
    let a: Article =
        create_article("---\nlayout:page\ntitle:cats and dogs\n---\ncat", "parse").unwrap();
    assert_eq!("cat", a.template);
    assert_eq!("page", a.config.layout);
}

#[test]
fn parse_template_muli_line() {
    let a: Article = create_article(
        "---\nlayout:page\ntitle:cats and dogs\n---\ncat\ncat\ncat\ncat\ncat",
        "parse_template_multi_line",
    )
    .unwrap();
    assert_eq!("cat\ncat\ncat\ncat\ncat", a.template);
    assert_eq!("page", a.config.layout);
}

#[test]
fn template_md_line() {
    let a: Article = create_article(
        "---\nlayout:page\ntitle:cats and dogs\n---\ncat---dog",
        "template_md_line",
    )
    .unwrap();
    assert_eq!("cat---dog", a.template);
    assert_eq!("page", a.config.layout);
}

#[test]
fn parse_with_real() {
    let a: Article =
        create_article("---\nlayout: page\ntitle:cats and dogs\n---\ncat", "parse_with_real")
            .unwrap();
    assert_eq!("cat", a.template);
    assert_eq!("page", a.config.layout);
}

#[test]
fn more_than_three_dashes() {
    let e = create_article(
        "----\nlayout:page\ntitle:cats and dogs\n-------\ncat",
        "more_than_three_seconds",
    )
    .err();
    assert!(e.is_some(), "no error found");
    match e {
        Some(ParseError::InvalidConfig(config)) => {
            assert!(
                config.contains("configuration needs to start with '---' for the first line"),
                "expected string to end with 'configuration needs to start with '---' for the first line' found {}",
                config
            )
        }
        _ => assert!(false, "looking for an invalid configuration, found {:?}", e),
    }
}

#[test]
fn article_url_from_title() {
    let a = create_article("---\nlayout:page\ntitle:cats and dogs\n---\ncat", "u").unwrap();
    assert_eq!("cats%20and%20dogs.html", a.url);
}

#[test]
fn article_url_from_permalink() {
    let a = create_article(
        "---\nlayout:page\ntitle:cats\npermalink:pets/all cats\n---\ncat",
        "u",
    )
    .unwrap();
    assert_eq!("pets/all%20cats", a.url);
}

#[test]
fn render_default_layout() {
    assert_eq!(
        "cats",
        gen_render_mocks(
            "---\r\nlayout: page\r\ntitle:cats and dogs\n---\r\ncat",
            "render_default_layout",
            vec![("default".to_string(), "cats".to_string())],
            vec![]
        )
        .unwrap()
    );
}

#[test]
fn render_globals() {
    assert_eq!(
        "test1 <p>cat</p>\n",
        gen_render_mocks(
            "---\r\nlayout: page\r\ntitle:cats and dogs\n---\r\ncat",
            "render_globals",
            vec![("default".to_string(), "{{global}} {{page.content}}".to_string())],
            vec![("test", "1")]
        )
        .unwrap()
    );
}

#[test]
fn render_globals_scope() {
    assert_eq!(
        "1".to_string(),
        gen_render_mocks(
            "---\r\nlayout: page\r\ntitle:cats and dogs\n---\r\ncat",
            "render_globals_scope",
            vec![("default".to_string(), "{{global.test}}".to_string())],
            vec![("test", "1")]
        )
        .unwrap()
    );
}

#[test]
fn render_content() {
    assert_eq!(
        "<h1>cats and dogs</h1><p>cat</p>\n".to_string(),
        gen_render_mocks(
            "---\r\nlayout: page\r\ntitle:cats and dogs\n---\r\ncat",
            "render_content",
            vec![(
                "default".to_string(),
                "<h1>{{page.config.title}}</h1>{{page.content}}".to_string()
            )],
            vec![("test", "1")]
        )
        .unwrap()
    );
}

#[test]
fn render_content_with_html_in_md() {
    assert_eq!(
        "<h1>cats and dogs</h1><p>cat<span>hello world</span></p>\n".to_string(),
        gen_render_mocks(
            "---\r\nlayout: page\r\ntitle:cats and dogs\n---\r\ncat<span>hello world</span>",
            "render_content_with_html_in_md",
            vec![(
                "default".to_string(),
                "<h1>{{page.config.title}}</h1>{{page.content}}".to_string()
            )],
            vec![("test", "1")]
        )
        .unwrap()
    );
}

#[test]
fn render_chained_includes() {
    assert_eq!(
        "I am a header<p>cat</p>\n".to_string(),
        gen_render_mocks(
            "---\r\nlayout: page\r\ntitle:cats and dogs\n---\r\ncat",
            "render_chained_includes",
            vec![
                ("default".to_string(), format!("{}{}", pulled_in("'header'"), pulled_in("layout"))),
                ("header".to_string(), "I am a header".to_string()),
                ("page2".to_string(), "1".to_string()),
                ("page3".to_string(), "2".to_string()),
                ("page".to_string(), "{{page.content}}".to_string()),
                ("page4".to_string(), "3".to_string())
            ],
            vec![("test", "1")]
        )
        .unwrap()
    );
}

#[test]
fn render_template_jekyll() {
    assert_eq!(
        "<h1>mole</h1><p>cat mole</p>\n".to_string(),
        gen_render_mocks(
            "---\r\nlayout: page\r\ntitle:mole\n---\r\ncat {{page.config.title}}",
            "render_template_jekyll",
            vec![
                (
                    "default".to_string(),
                    format!("<h1>{{{{page.config.title}}}}</h1>{}", pulled_in("layout"))
                ),
                ("page".to_string(), "{{page.content}}".to_string())
            ],
            vec![("test", "1")]
        )
        .unwrap()
    );
}

#[test]
fn render_warns_on_missing_placeholder() {
    let a = create_article("---\nlayout:page\ntitle:cats\n---\ncat", "w").unwrap();
    let mut store = TemplateStore::new();
    let mut src = partials_new();
    partials_add(&mut src, "default", "no slot here");
    store.insert("default".to_string(), "no slot here".to_string(), true);
    let parser = parser_new(src).unwrap();
    let global = obj_new();
    let mut warnings: Vec<String> = Vec::new();
    let out = a.true_render(&global, &parser, &store, &mut warnings).unwrap();
    assert_eq!("no slot here", out);
    assert!(warnings.iter().any(|w| w.contains("using baselayout: \"default\"")));
    assert!(warnings.iter().any(|w| w.contains("potentially missing out {{page.content}}")));
}

#[test]
fn render_without_any_layout_uses_the_body() {
    let a = create_article("---\nlayout:page\ntitle:cats\nbase_layout:x\n---\nplain", "w").unwrap();
    // empty both layout choices by hand to reach the degraded path
    let mut a = a;
    a.config.base_layout = String::new();
    a.config.layout = String::new();
    let store = TemplateStore::new();
    let parser = parser_new(partials_new()).unwrap();
    let global = obj_new();
    let mut warnings: Vec<String> = Vec::new();
    let out = a.render(&global, &parser, &store, &mut warnings).unwrap();
    assert_eq!("plain", out);
    assert!(warnings.iter().any(|w| w.contains("no base layout found and no layout found")));
}
