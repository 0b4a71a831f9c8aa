use crate::engine::{
    engine_render, html_of, markdown_to_html, obj_clone, obj_insert_bool, obj_insert_obj,
    obj_insert_str, obj_insert_str_list, obj_new, no_entries, obj_entries, CtxVal,
};
use crate::parse::{spec_parse, ConfigV, ParseError, ParseErrorV};
use crate::store::{spec_store_lookup, TemplateStore, TemplateEntryV};
use crate::text::{has_sub, push_char, spec_has_sub, spec_trim, trim_str};
use vstd::prelude::*;
use vstd::string::*;

pub use crate::parse::parse;
pub use crate::parse::Config;

verus! {

// ---------------------------------------------------------------------------
// The article
// ---------------------------------------------------------------------------

/// One renderable unit: the body text as the working template, the typed
/// configuration, and the derived output URL.
pub struct Article {
    pub template: String,
    pub config: Config,
    pub url: String,
}

pub ghost struct ArticleV {
    pub template: Seq<char>,
    pub config: ConfigV,
    pub url: Seq<char>,
}

impl View for Article {
    type V = ArticleV;

    open spec fn view(&self) -> ArticleV {
        ArticleV { template: self.template@, config: self.config@, url: self.url@ }
    }
}

// ---------------------------------------------------------------------------
// URL derivation
// ---------------------------------------------------------------------------

/// Each space becomes `%20`; every other character stays as it is.
pub open spec fn spec_url_encode(s: Seq<char>) -> Seq<char>
    decreases s.len(),
{
    if s.len() == 0 {
        Seq::empty()
    } else {
        (if s[0] == ' ' {
            seq!['%', '2', '0']
        } else {
            seq![s[0]]
        }) + spec_url_encode(s.skip(1))
    }
}

/// The article's URL: the permalink if one was given, else the title with
/// `.html` appended; spaces percent-encoded either way.
pub open spec fn spec_url_of(c: ConfigV) -> Seq<char> {
    spec_url_encode(
        if c.permalink.len() == 0 {
            c.title + ".html"@
        } else {
            c.permalink
        },
    )
}

pub fn url_encode(s: &str) -> (r: String)
    ensures
        r@ == spec_url_encode(s@),
{
    let n = s.unicode_len();
    let mut out = String::new();
    let mut i: usize = 0;
    proof {
        assert(s@.skip(0) =~= s@);
        assert(out@ + spec_url_encode(s@) =~= spec_url_encode(s@));
    }
    while i < n
        invariant
            0 <= i <= n,
            n == s@.len(),
            spec_url_encode(s@) == out@ + spec_url_encode(s@.skip(i as int)),
        decreases n - i,
    {
        let ghost suffix = s@.skip(i as int);
        let c = s.get_char(i);
        if c == ' ' {
            push_char(&mut out, '%');
            push_char(&mut out, '2');
            push_char(&mut out, '0');
        } else {
            push_char(&mut out, c);
        }
        i = i + 1;
        proof {
            assert(suffix[0] == c);
            assert(suffix.skip(1) =~= s@.skip(i as int));
            if c == ' ' {
                assert(out@ =~= (out@.subrange(0, out@.len() - 3)) + seq!['%', '2', '0']);
                assert(out@ + spec_url_encode(s@.skip(i as int)) =~= spec_url_encode(s@));
            } else {
                assert(out@ + spec_url_encode(s@.skip(i as int)) =~= spec_url_encode(s@));
            }
        }
    }
    proof {
        assert(s@.skip(n as int).len() == 0);
        assert(out@ =~= spec_url_encode(s@));
    }
    out
}

// ---------------------------------------------------------------------------
// Assembling an article from a source file
// ---------------------------------------------------------------------------

/// The article assembled from a parsed record: the trimmed body and the URL.
pub open spec fn spec_article_of(c: ConfigV, body: Seq<char>) -> ArticleV {
    ArticleV { template: spec_trim(body), config: c, url: spec_url_of(c) }
}

/// What `Article::parse` returns on any input.
pub open spec fn spec_article_parse(text: Seq<char>, path: Seq<char>) -> Result<
    ArticleV,
    ParseErrorV,
> {
    match spec_parse(text, path) {
        Ok((c, body)) => Ok(spec_article_of(c, body)),
        Err(e) => Err(e),
    }
}

impl Article {
    /// The header block is parsed into the configuration; the remaining
    /// lines, trimmed, become the template; the URL is derived once.
    pub fn parse(text: &str, path: &str) -> (r: Result<Article, ParseError>)
        ensures
            match (r, spec_article_parse(text@, path@)) {
                (Ok(a), Ok(sa)) => a@ == sa,
                (Err(e), Err(se)) => e@ == se,
                _ => false,
            },
    {
        match crate::parse::parse(text, path) {
            Ok((config, body)) => {
                let template = trim_str(body.as_str()).to_owned();
                let url = if config.permalink.as_str().is_empty() {
                    let mut base = config.title.clone();
                    base.append(".html");
                    url_encode(base.as_str())
                } else {
                    url_encode(config.permalink.as_str())
                };
                Ok(Article { template, config, url })
            },
            Err(e) => Err(e),
        }
    }
}

// ---------------------------------------------------------------------------
// The page context
// ---------------------------------------------------------------------------

/// The nested context one article presents to a template: the body as
/// `content`, the configuration under `config`, and the URL.
pub open spec fn spec_page_entries(a: ArticleV) -> Map<Seq<char>, CtxVal> {
    no_entries().insert("content"@, CtxVal::S(a.template)).insert(
        "config"@,
        CtxVal::O(
            no_entries().insert("title"@, CtxVal::S(a.config.title)).insert(
                "description"@,
                CtxVal::S(a.config.description),
            ).insert(
                "tags"@,
                CtxVal::A(a.config.tags.map_values(|s: Seq<char>| CtxVal::S(s))),
            ).insert(
                "categories"@,
                CtxVal::A(a.config.categories.map_values(|s: Seq<char>| CtxVal::S(s))),
            ).insert("visible"@, CtxVal::B(a.config.visible)).insert(
                "layout"@,
                CtxVal::S(a.config.layout),
            ),
        ),
    ).insert("url"@, CtxVal::S(a.url))
}

/// Builds the context object for one article, fresh at each phase.
pub fn page_object(a: &Article) -> (o: liquid::Object)
    ensures
        obj_entries(o) == spec_page_entries(a@),
{
    let mut cfg = obj_new();
    obj_insert_str(&mut cfg, "title", a.config.title.as_str());
    obj_insert_str(&mut cfg, "description", a.config.description.as_str());
    obj_insert_str_list(&mut cfg, "tags", &a.config.tags);
    obj_insert_str_list(&mut cfg, "categories", &a.config.categories);
    obj_insert_bool(&mut cfg, "visible", a.config.visible);
    obj_insert_str(&mut cfg, "layout", a.config.layout.as_str());
    let mut o = obj_new();
    obj_insert_str(&mut o, "content", a.template.as_str());
    obj_insert_obj(&mut o, "config", cfg);
    obj_insert_str(&mut o, "url", a.url.as_str());
    proof {
        assert(obj_entries(o) =~~= spec_page_entries(a@));
    }
    o
}

/// The context every render sees: the build-wide data under `global`, the
/// article's own context under `page`, and the layout name under `layout`.
pub open spec fn spec_render_context(
    global: Map<Seq<char>, CtxVal>,
    page: Map<Seq<char>, CtxVal>,
    layout: Seq<char>,
) -> Map<Seq<char>, CtxVal> {
    no_entries().insert("global"@, CtxVal::O(global)).insert("page"@, CtxVal::O(page)).insert(
        "layout"@,
        CtxVal::S(layout),
    )
}

/// Assembles the `{global, page, layout}` context handed to the engine.
pub fn render_context(global: &liquid::Object, page: liquid::Object, layout: &str) -> (o:
    liquid::Object)
    ensures
        obj_entries(o) == spec_render_context(obj_entries(*global), obj_entries(page), layout@),
{
    let mut o = obj_new();
    obj_insert_obj(&mut o, "global", obj_clone(global));
    obj_insert_obj(&mut o, "page", page);
    obj_insert_str(&mut o, "layout", layout);
    proof {
        assert(obj_entries(o) =~~= spec_render_context(
            obj_entries(*global),
            obj_entries(page),
            layout@,
        ));
    }
    o
}

// ---------------------------------------------------------------------------
// The two-phase render and the layout composition
// ---------------------------------------------------------------------------

/// The article after one content pass: the engine's output replaces the
/// template, converted to HTML when the pass is the markdown one.
pub open spec fn spec_after_phase(a: ArticleV, rendered: Seq<char>, md: bool) -> ArticleV {
    ArticleV {
        template: if md {
            html_of(rendered)
        } else {
            rendered
        },
        ..a
    }
}

/// The wrapping template for the final composition: the base layout when one
/// is set, else the layout, else none (the body stands alone).
pub open spec fn spec_wrap_name(c: ConfigV) -> Option<Seq<char>> {
    if c.base_layout.len() > 0 {
        Some(c.base_layout)
    } else if c.layout.len() > 0 {
        Some(c.layout)
    } else {
        None
    }
}

impl Article {
    /// The name of the wrapping template this article composes with, if any.
    pub fn wrapping_name(&self) -> (r: Option<&String>)
        ensures
            match r {
                Some(n) => spec_wrap_name(self@.config) == Some(n@),
                None => spec_wrap_name(self@.config) == None::<Seq<char>>,
            },
    {
        if !self.config.base_layout.as_str().is_empty() {
            Some(&self.config.base_layout)
        } else if !self.config.layout.as_str().is_empty() {
            Some(&self.config.layout)
        } else {
            None
        }
    }
}

/// The one-line synthetic template that pulls the named wrapping template in.
pub open spec fn spec_directive(name: Seq<char>) -> Seq<char> {
    seq!['{', '%', '-', ' ', 'i', 'n', 'c', 'l', 'u', 'd', 'e', ' ', '\''] + name + seq![
        '\'',
        ' ',
        '-',
        '%',
        '}',
    ]
}

/// Builds the synthetic wrapping directive for the named template.
pub fn directive_text(name: &str) -> (r: String)
    ensures
        r@ == spec_directive(name@),
{
    let mut out = String::new();
    push_char(&mut out, '{');
    push_char(&mut out, '%');
    push_char(&mut out, '-');
    push_char(&mut out, ' ');
    push_char(&mut out, 'i');
    push_char(&mut out, 'n');
    push_char(&mut out, 'c');
    push_char(&mut out, 'l');
    push_char(&mut out, 'u');
    push_char(&mut out, 'd');
    push_char(&mut out, 'e');
    push_char(&mut out, ' ');
    push_char(&mut out, '\'');
    out.append(name);
    push_char(&mut out, '\'');
    push_char(&mut out, ' ');
    push_char(&mut out, '-');
    push_char(&mut out, '%');
    push_char(&mut out, '}');
    proof {
        assert(out@ =~= spec_directive(name@));
    }
    out
}

/// Whether the template text holds a content placeholder, in its unspaced or
/// its spaced form.
pub open spec fn spec_has_placeholder(t: Seq<char>) -> bool {
    spec_has_sub(t, "{{page.content}}"@) || spec_has_sub(t, "{{ page.content }}"@)
}

pub open spec fn spec_placeholder_warning() -> Seq<char> {
    "potentially missing out {{page.content}} in layout so none of the articles text will be displayed"@
}

/// The diagnostics the layout composition emits: which wrapping template was
/// chosen, and whether the chosen text may drop the article's content.
pub open spec fn spec_render_warnings(a: ArticleV, store: Seq<TemplateEntryV>) -> Seq<Seq<char>> {
    let (head, target): (Seq<char>, Option<Seq<char>>) = if a.config.base_layout.len() > 0 {
        (
            "using baselayout: \""@ + a.config.base_layout + seq!['"'],
            spec_store_lookup(store, a.config.base_layout),
        )
    } else if a.config.layout.len() > 0 {
        ("no base layout found"@, spec_store_lookup(store, a.config.layout))
    } else {
        ("no base layout found and no layout found"@, Some(a.template))
    };
    seq![head] + (match target {
        Some(t) => if !spec_has_placeholder(t) {
            seq![spec_placeholder_warning()]
        } else {
            Seq::empty()
        },
        None => Seq::empty(),
    })
}

fn warn_placeholder(t: &str, warnings: &mut Vec<String>)
    ensures
        final(warnings).deep_view() == old(warnings).deep_view() + (if spec_has_placeholder(t@) {
            Seq::<Seq<char>>::empty()
        } else {
            seq![spec_placeholder_warning()]
        }),
{
    let ghost before = warnings.deep_view();
    if !(has_sub(t, "{{page.content}}") || has_sub(t, "{{ page.content }}")) {
        warnings.push(
            String::from_str(
                "potentially missing out {{page.content}} in layout so none of the articles text will be displayed",
            ),
        );
        proof {
            assert(warnings.deep_view() =~= before + seq![spec_placeholder_warning()]);
        }
    } else {
        proof {
            assert(warnings.deep_view() =~= before + Seq::<Seq<char>>::empty());
        }
    }
}

impl Article {
    /// One content pass: the body is rendered as a template against the
    /// `{global, page, layout}` context, and the output (as HTML when `md`
    /// is set) becomes the new body; the configuration and the URL stay.
    pub fn pre_render(self, global: &liquid::Object, parser: &liquid::Parser, md: bool) -> (r:
        Result<Article, String>)
        ensures
            match r {
                Ok(a) => exists|t: Seq<char>| a@ == spec_after_phase(self@, t, md),
                Err(_) => true,
            },
    {
        let page = page_object(&self);
        let ctx = render_context(global, page, self.config.layout.as_str());
        proof {
            assert(obj_entries(ctx) == spec_render_context(
                obj_entries(*global),
                spec_page_entries(self@),
                self@.config.layout,
            ));
        }
        match engine_render(parser, self.template.as_str(), &ctx) {
            Ok(t) => {
                let ghost tv = t@;
                let a = self.apply_rendered(t, md);
                proof {
                    assert(a@ == spec_after_phase(self@, tv, md));
                }
                Ok(a)
            },
            Err(e) => Err(e),
        }
    }

    /// The pure tail of a content pass, for a given engine output.
    pub fn apply_rendered(self, rendered: String, md: bool) -> (a: Article)
        ensures
            a@ == spec_after_phase(self@, rendered@, md),
    {
        let template = if md {
            markdown_to_html(rendered.as_str())
        } else {
            rendered
        };
        Article { template, config: self.config, url: self.url }
    }

    /// The layout composition: the chosen wrapping template (pulled in by a
    /// synthetic one-line directive, `spec_wrap_name`/`spec_directive`) or
    /// the bare body is rendered against the final `{global, page, layout}`
    /// context.  The emitted diagnostics are exactly
    /// `spec_render_warnings`.
    pub fn render(
        &self,
        global: &liquid::Object,
        parser: &liquid::Parser,
        store: &TemplateStore,
        warnings: &mut Vec<String>,
    ) -> (r: Result<String, String>)
        ensures
            final(warnings).deep_view() == old(warnings).deep_view() + spec_render_warnings(
                self@,
                store@,
            ),
    {
        let ghost before = warnings.deep_view();
        let text: String;
        if !self.config.base_layout.as_str().is_empty() {
            let mut head = String::new();
            head.append("using baselayout: \"");
            head.append(self.config.base_layout.as_str());
            push_char(&mut head, '"');
            proof {
                assert(head@ =~= "using baselayout: \""@ + self@.config.base_layout + seq!['"']);
            }
            warnings.push(head);
            let ghost mid = warnings.deep_view();
            match store.lookup(self.config.base_layout.as_str()) {
                Some(t) => warn_placeholder(t.as_str(), warnings),
                None => (),
            }
            text = directive_text(self.config.base_layout.as_str());
            proof {
                assert(mid =~= before.push(
                    "using baselayout: \""@ + self@.config.base_layout + seq!['"'],
                ));
                assert(warnings.deep_view() =~= before + spec_render_warnings(self@, store@));
            }
        } else if !self.config.layout.as_str().is_empty() {
            warnings.push(String::from_str("no base layout found"));
            let ghost mid = warnings.deep_view();
            match store.lookup(self.config.layout.as_str()) {
                Some(t) => warn_placeholder(t.as_str(), warnings),
                None => (),
            }
            text = directive_text(self.config.layout.as_str());
            proof {
                assert(mid =~= before.push("no base layout found"@));
                assert(warnings.deep_view() =~= before + spec_render_warnings(self@, store@));
            }
        } else {
            warnings.push(String::from_str("no base layout found and no layout found"));
            let ghost mid = warnings.deep_view();
            warn_placeholder(self.template.as_str(), warnings);
            text = self.template.clone();
            proof {
                assert(mid =~= before.push("no base layout found and no layout found"@));
                assert(warnings.deep_view() =~= before + spec_render_warnings(self@, store@));
            }
        }
        proof {
            assert(text@ == (match spec_wrap_name(self@.config) {
                Some(n) => spec_directive(n),
                None => self@.template,
            }));
        }
        let page = page_object(self);
        let ctx = render_context(global, page, self.config.layout.as_str());
        proof {
            assert(obj_entries(ctx) == spec_render_context(
                obj_entries(*global),
                spec_page_entries(self@),
                self@.config.layout,
            ));
        }
        engine_render(parser, text.as_str(), &ctx)
    }

    /// The whole pipeline for one article: the directive pass, the markdown
    /// pass, then the layout composition.  The composition runs on an
    /// article whose configuration and URL are this one's and whose body is
    /// the markdown phase's HTML, and appends exactly that article's
    /// composition diagnostics.
    pub fn true_render(
        self,
        global: &liquid::Object,
        parser: &liquid::Parser,
        store: &TemplateStore,
        warnings: &mut Vec<String>,
    ) -> (r: Result<String, String>)
        ensures
            match r {
                Ok(_) => exists|a2: ArticleV|
                    {
                        &&& a2.config == self@.config
                        &&& a2.url == self@.url
                        &&& exists|t: Seq<char>| a2.template == html_of(t)
                        &&& final(warnings).deep_view() == old(warnings).deep_view()
                            + spec_render_warnings(a2, store@)
                    },
                Err(_) => final(warnings).deep_view() == old(warnings).deep_view() || exists|
                    a2: ArticleV,
                |
                    {
                        &&& a2.config == self@.config
                        &&& a2.url == self@.url
                        &&& final(warnings).deep_view() == old(warnings).deep_view()
                            + spec_render_warnings(a2, store@)
                    },
            },
            exists|ext: Seq<Seq<char>>|
                final(warnings).deep_view() == old(warnings).deep_view() + ext,
    {
        match self.pre_render(global, parser, false) {
            Ok(a1) => match a1.pre_render(global, parser, true) {
                Ok(a2) => {
                    let ghost a2v = a2@;
                    let r = a2.render(global, parser, store, warnings);
                    proof {
                        assert(warnings.deep_view() == old(warnings).deep_view()
                            + spec_render_warnings(a2v, store@));
                    }
                    r
                },
                Err(e) => {
                    proof {
                        assert(warnings.deep_view() == old(warnings).deep_view() + Seq::<
                            Seq<char>,
                        >::empty()) by {
                            assert(warnings.deep_view() + Seq::<Seq<char>>::empty()
                                =~= warnings.deep_view());
                        }
                    }
                    Err(e)
                },
            },
            Err(e) => {
                proof {
                    assert(warnings.deep_view() == old(warnings).deep_view() + Seq::<
                        Seq<char>,
                    >::empty()) by {
                        assert(warnings.deep_view() + Seq::<Seq<char>>::empty()
                            =~= warnings.deep_view());
                    }
                }
                Err(e)
            },
        }
    }
}

} // verus!
