use vstd::prelude::*;

pub mod article;
pub mod cmds;
pub mod engine;
pub mod parse;
pub mod store;
pub mod text;

use crate::article::{spec_article_parse, spec_page_entries, spec_render_warnings, Article, ArticleV};
use crate::engine::{obj_entries, obj_insert_obj, obj_insert_obj_list, obj_insert_str_list, obj_new, CtxVal};
use crate::parse::spec_error_render;
use crate::store::{
    spec_collision_msg, spec_store_has, spec_table_lookup, PathTable, TemplateEntryV,
    TemplateStore,
};
use crate::text::{push_char, spec_first_ix, spec_split, spec_starts_with, split_plain, starts_with};
use vstd::string::*;

verus! {

// ---------------------------------------------------------------------------
// Inputs handed to the orchestrator
// ---------------------------------------------------------------------------

/// One template file, already read: its store key, its source text, and the
/// on-disk path it came from (for the backtrace side table).
pub struct TemplateFile {
    pub name: String,
    pub source: String,
    pub path: String,
}

pub ghost struct TemplateFileV {
    pub name: Seq<char>,
    pub source: Seq<char>,
    pub path: Seq<char>,
}

impl View for TemplateFile {
    type V = TemplateFileV;

    open spec fn view(&self) -> TemplateFileV {
        TemplateFileV { name: self.name@, source: self.source@, path: self.path@ }
    }
}

impl DeepView for TemplateFile {
    type V = TemplateFileV;

    open spec fn deep_view(&self) -> TemplateFileV {
        self.view()
    }
}

/// One article or stylesheet source file, already read.
pub struct SourceFile {
    pub path: String,
    pub content: String,
}

pub ghost struct SourceFileV {
    pub path: Seq<char>,
    pub content: Seq<char>,
}

impl View for SourceFile {
    type V = SourceFileV;

    open spec fn view(&self) -> SourceFileV {
        SourceFileV { path: self.path@, content: self.content@ }
    }
}

impl DeepView for SourceFile {
    type V = SourceFileV;

    open spec fn deep_view(&self) -> SourceFileV {
        self.view()
    }
}

/// What stops a whole build: articles requested before any layout was
/// loaded, or a template store the engine refused.
#[derive(Debug)]
pub enum BuildError {
    NoLayouts,
    Engine(String),
}

impl BuildError {
    /// The report text of the error.
    pub fn message(&self) -> (r: String)
        ensures
            match self {
                BuildError::NoLayouts => r@
                    == "empty layout list, please load in layout template files before parsing articles"@,
                BuildError::Engine(m) => r@ == m@,
            },
    {
        match self {
            BuildError::NoLayouts => String::from_str(
                "empty layout list, please load in layout template files before parsing articles",
            ),
            BuildError::Engine(m) => m.clone(),
        }
    }
}

// ---------------------------------------------------------------------------
// The orchestrator's state
// ---------------------------------------------------------------------------

/// The build in the making: templates first, then articles, then the render.
pub struct Build {
    pub store: TemplateStore,
    pub layouts: Vec<String>,
    pub articles: Vec<Article>,
    pub article_paths: Vec<String>,
    pub output: String,
    pub backtrace: bool,
    pub includes_paths: PathTable,
}

pub ghost struct BuildV {
    pub store: Seq<TemplateEntryV>,
    pub layouts: Seq<Seq<char>>,
    pub articles: Seq<ArticleV>,
    pub article_paths: Seq<Seq<char>>,
    pub output: Seq<char>,
    pub backtrace: bool,
    pub includes_paths: Seq<(Seq<char>, Seq<char>)>,
}

impl View for Build {
    type V = BuildV;

    open spec fn view(&self) -> BuildV {
        BuildV {
            store: self.store@,
            layouts: self.layouts.deep_view(),
            articles: Seq::new(self.articles@.len(), |i: int| self.articles@[i]@),
            article_paths: self.article_paths.deep_view(),
            output: self.output@,
            backtrace: self.backtrace,
            includes_paths: self.includes_paths@,
        }
    }
}

// ---------------------------------------------------------------------------
// Loading templates
// ---------------------------------------------------------------------------

/// The store, the layout list, the side table and the diagnostics as one
/// template file changes them: the side table grows only in backtrace mode,
/// a name collision keeps the first entry and reports itself, and a layout's
/// name is remembered either way.
pub ghost struct LoadSt {
    pub store: Seq<TemplateEntryV>,
    pub layouts: Seq<Seq<char>>,
    pub table: Seq<(Seq<char>, Seq<char>)>,
    pub diags: Seq<Seq<char>>,
}

pub open spec fn spec_load_step(
    st: LoadSt,
    f: TemplateFileV,
    layout: bool,
    backtrace: bool,
) -> LoadSt {
    let table = if backtrace {
        st.table.push((f.name, f.path))
    } else {
        st.table
    };
    let collides = spec_store_has(st.store, f.name);
    LoadSt {
        store: if collides {
            st.store
        } else {
            st.store.push(TemplateEntryV { name: f.name, source: f.source, layout })
        },
        layouts: if layout {
            st.layouts.push(f.name)
        } else {
            st.layouts
        },
        table,
        diags: if collides {
            st.diags.push(spec_collision_msg(f.name, layout))
        } else {
            st.diags
        },
    }
}

pub open spec fn spec_load_fold(
    st: LoadSt,
    files: Seq<TemplateFileV>,
    layout: bool,
    backtrace: bool,
) -> LoadSt
    decreases files.len(),
{
    if files.len() == 0 {
        st
    } else {
        spec_load_fold(
            spec_load_step(st, files[0], layout, backtrace),
            files.skip(1),
            layout,
            backtrace,
        )
    }
}

impl Build {
    pub fn new(output: String, backtrace: bool) -> (r: Build)
        ensures
            r@.store == Seq::<TemplateEntryV>::empty(),
            r@.layouts == Seq::<Seq<char>>::empty(),
            r@.articles == Seq::<ArticleV>::empty(),
            r@.article_paths == Seq::<Seq<char>>::empty(),
            r@.output == output@,
            r@.backtrace == backtrace,
            r@.includes_paths == Seq::<(Seq<char>, Seq<char>)>::empty(),
    {
        let r = Build {
            store: TemplateStore::new(),
            layouts: Vec::new(),
            articles: Vec::new(),
            article_paths: Vec::new(),
            output,
            backtrace,
            includes_paths: PathTable::new(),
        };
        proof {
            assert(r@.layouts =~= Seq::<Seq<char>>::empty());
            assert(r@.articles =~= Seq::<ArticleV>::empty());
            assert(r@.article_paths =~= Seq::<Seq<char>>::empty());
        }
        r
    }

    /// Loads template files into the shared store, layouts and ordinary
    /// fragments alike, and returns the collision reports.
    pub fn includes(self, files: &Vec<TemplateFile>, layout: bool) -> (r: (Build, Vec<String>))
        ensures
            ({
                let end = spec_load_fold(
                    LoadSt {
                        store: self@.store,
                        layouts: self@.layouts,
                        table: self@.includes_paths,
                        diags: Seq::empty(),
                    },
                    files.deep_view(),
                    layout,
                    self@.backtrace,
                );
                r.0@.store == end.store && r.0@.layouts == end.layouts && r.0@.includes_paths
                    == end.table && r.1.deep_view() == end.diags && r.0@.articles == self@.articles
                    && r.0@.article_paths == self@.article_paths && r.0@.output == self@.output
                    && r.0@.backtrace == self@.backtrace
            }),
    {
        let mut b = self;
        let mut diags: Vec<String> = Vec::new();
        let n = files.len();
        let mut i: usize = 0;
        let ghost init = LoadSt {
            store: b@.store,
            layouts: b@.layouts,
            table: b@.includes_paths,
            diags: Seq::empty(),
        };
        proof {
            assert(files.deep_view().skip(0) =~= files.deep_view());
            assert(diags.deep_view() =~= Seq::<Seq<char>>::empty());
        }
        while i < n
            invariant
                0 <= i <= n,
                n == files@.len(),
                n == files.deep_view().len(),
                spec_load_fold(init, files.deep_view(), layout, b@.backtrace) == spec_load_fold(
                    LoadSt {
                        store: b@.store,
                        layouts: b@.layouts,
                        table: b@.includes_paths,
                        diags: diags.deep_view(),
                    },
                    files.deep_view().skip(i as int),
                    layout,
                    b@.backtrace,
                ),
                b@.articles == self@.articles,
                b@.article_paths == self@.article_paths,
                b@.output == self@.output,
                b@.backtrace == self@.backtrace,
            decreases n - i,
        {
            proof {
                assert(files.deep_view().skip(i as int)[0] == files.deep_view()[i as int]);
                assert(files.deep_view()[i as int] == files@[i as int]@);
            }
            let f = &files[i];
            if b.backtrace {
                b.includes_paths.push(f.name.clone(), f.path.clone());
            }
            match b.store.insert(f.name.clone(), f.source.clone(), layout) {
                Some(m) => {
                    let ghost before = diags.deep_view();
                    diags.push(m);
                    proof {
                        assert(diags.deep_view() =~= before.push(
                            spec_collision_msg(f.name@, layout),
                        ));
                    }
                },
                None => (),
            }
            if layout {
                let ghost lb = b@.layouts;
                b.layouts.push(f.name.clone());
                proof {
                    assert(b@.layouts =~= lb.push(f.name@));
                }
            }
            i = i + 1;
            proof {
                assert(files.deep_view().skip(i - 1).skip(1) =~= files.deep_view().skip(i as int));
            }
        }
        proof {
            assert(files.deep_view().skip(n as int).len() == 0);
        }
        (b, diags)
    }
}

// ---------------------------------------------------------------------------
// Loading articles
// ---------------------------------------------------------------------------

/// The articles, their paths and the diagnostics as the source files fold
/// in: a file that parses joins the batch with its path; one that fails adds
/// its rendered diagnostic and is skipped.
pub ghost struct ArtSt {
    pub articles: Seq<ArticleV>,
    pub paths: Seq<Seq<char>>,
    pub diags: Seq<Seq<char>>,
}

pub open spec fn spec_articles_step(st: ArtSt, f: SourceFileV) -> ArtSt {
    match spec_article_parse(f.content, f.path) {
        Ok(a) => ArtSt { articles: st.articles.push(a), paths: st.paths.push(f.path), ..st },
        Err(e) => ArtSt { diags: st.diags.push(spec_error_render(e)), ..st },
    }
}

pub open spec fn spec_articles_fold(st: ArtSt, files: Seq<SourceFileV>) -> ArtSt
    decreases files.len(),
{
    if files.len() == 0 {
        st
    } else {
        spec_articles_fold(spec_articles_step(st, files[0]), files.skip(1))
    }
}

impl Build {
    /// Parses the source files into articles, each file on its own: a parse
    /// failure is reported and that file alone is skipped.  Asking for
    /// articles before any layout was loaded is refused as a whole.
    pub fn articles(self, files: &Vec<SourceFile>) -> (r: Result<
        (Build, Vec<String>),
        BuildError,
    >)
        ensures
            self@.layouts.len() == 0 <==> r matches Err(BuildError::NoLayouts),
            match r {
                Ok((b, diags)) => {
                    let end = spec_articles_fold(
                        ArtSt {
                            articles: self@.articles,
                            paths: self@.article_paths,
                            diags: Seq::empty(),
                        },
                        files.deep_view(),
                    );
                    b@.articles == end.articles && b@.article_paths == end.paths
                        && diags.deep_view() == end.diags && b@.store == self@.store && b@.layouts
                        == self@.layouts && b@.output == self@.output && b@.backtrace
                        == self@.backtrace && b@.includes_paths == self@.includes_paths
                },
                Err(e) => e is NoLayouts,
            },
    {
        if self.layouts.len() == 0 {
            return Err(BuildError::NoLayouts);
        }
        let mut b = self;
        let mut diags: Vec<String> = Vec::new();
        let n = files.len();
        let mut i: usize = 0;
        let ghost init = ArtSt {
            articles: b@.articles,
            paths: b@.article_paths,
            diags: Seq::empty(),
        };
        proof {
            assert(files.deep_view().skip(0) =~= files.deep_view());
            assert(diags.deep_view() =~= Seq::<Seq<char>>::empty());
        }
        while i < n
            invariant
                0 <= i <= n,
                n == files@.len(),
                n == files.deep_view().len(),
                spec_articles_fold(init, files.deep_view()) == spec_articles_fold(
                    ArtSt {
                        articles: b@.articles,
                        paths: b@.article_paths,
                        diags: diags.deep_view(),
                    },
                    files.deep_view().skip(i as int),
                ),
                b@.store == self@.store,
                b@.layouts == self@.layouts,
                b@.output == self@.output,
                b@.backtrace == self@.backtrace,
                b@.includes_paths == self@.includes_paths,
            decreases n - i,
        {
            proof {
                assert(files.deep_view().skip(i as int)[0] == files.deep_view()[i as int]);
                assert(files.deep_view()[i as int] == files@[i as int]@);
            }
            let f = &files[i];
            match Article::parse(f.content.as_str(), f.path.as_str()) {
                Ok(a) => {
                    let ghost arts = b@.articles;
                    let ghost paths = b@.article_paths;
                    let ghost av = a@;
                    b.articles.push(a);
                    b.article_paths.push(f.path.clone());
                    proof {
                        assert(b@.articles =~= arts.push(av));
                        assert(b@.article_paths =~= paths.push(f.path@));
                    }
                },
                Err(e) => {
                    let ghost before = diags.deep_view();
                    let d = e.render();
                    diags.push(d);
                    proof {
                        assert(diags.deep_view() =~= before.push(spec_error_render(e@)));
                    }
                },
            }
            i = i + 1;
            proof {
                assert(files.deep_view().skip(i - 1).skip(1) =~= files.deep_view().skip(i as int));
            }
        }
        proof {
            assert(files.deep_view().skip(n as int).len() == 0);
        }
        Ok((b, diags))
    }
}

// ---------------------------------------------------------------------------
// The tag and category indexes
// ---------------------------------------------------------------------------

/// An index entry: a key (a tag or a category) and the URLs recorded under
/// it, in discovery order.
pub open spec fn spec_idx_lookup(
    idx: Seq<(Seq<char>, Seq<Seq<char>>)>,
    key: Seq<char>,
) -> Seq<Seq<char>>
    decreases idx.len(),
{
    if idx.len() == 0 {
        Seq::empty()
    } else if idx[0].0 == key {
        idx[0].1
    } else {
        spec_idx_lookup(idx.skip(1), key)
    }
}

/// One URL recorded under one key: appended to the key's entry, or opening
/// a new entry at the end.
pub open spec fn spec_idx_add(
    idx: Seq<(Seq<char>, Seq<Seq<char>>)>,
    key: Seq<char>,
    url: Seq<char>,
) -> Seq<(Seq<char>, Seq<Seq<char>>)>
    decreases idx.len(),
{
    if idx.len() == 0 {
        seq![(key, seq![url])]
    } else if idx[0].0 == key {
        seq![(idx[0].0, idx[0].1.push(url))] + idx.skip(1)
    } else {
        seq![idx[0]] + spec_idx_add(idx.skip(1), key, url)
    }
}

pub open spec fn spec_idx_add_all(
    idx: Seq<(Seq<char>, Seq<Seq<char>>)>,
    keys: Seq<Seq<char>>,
    url: Seq<char>,
) -> Seq<(Seq<char>, Seq<Seq<char>>)>
    decreases keys.len(),
{
    if keys.len() == 0 {
        idx
    } else {
        spec_idx_add_all(spec_idx_add(idx, keys[0], url), keys.skip(1), url)
    }
}

/// The keys one article contributes: its tags, or its categories.
pub open spec fn spec_keys_of(a: ArticleV, tags: bool) -> Seq<Seq<char>> {
    if tags {
        a.config.tags
    } else {
        a.config.categories
    }
}

/// The whole index over the articles, in discovery order.
pub open spec fn spec_index_fold(
    idx: Seq<(Seq<char>, Seq<Seq<char>>)>,
    articles: Seq<ArticleV>,
    tags: bool,
) -> Seq<(Seq<char>, Seq<Seq<char>>)>
    decreases articles.len(),
{
    if articles.len() == 0 {
        idx
    } else {
        spec_index_fold(
            spec_idx_add_all(idx, spec_keys_of(articles[0], tags), articles[0].url),
            articles.skip(1),
            tags,
        )
    }
}

/// The URLs of the articles that carry the key, in discovery order.
pub open spec fn spec_urls_with(articles: Seq<ArticleV>, key: Seq<char>, tags: bool) -> Seq<
    Seq<char>,
>
    decreases articles.len(),
{
    if articles.len() == 0 {
        Seq::empty()
    } else {
        (if spec_keys_of(articles[0], tags).contains(key) {
            seq![articles[0].url]
        } else {
            Seq::empty()
        }) + spec_urls_with(articles.skip(1), key, tags)
    }
}

/// No key list names the key twice.
pub open spec fn spec_key_once(articles: Seq<ArticleV>, key: Seq<char>, tags: bool) -> bool {
    forall|n: int, i: int, j: int|
        0 <= n < articles.len() && 0 <= i < spec_keys_of(articles[n], tags).len() && 0 <= j
            < spec_keys_of(articles[n], tags).len() && spec_keys_of(articles[n], tags)[i] == key
            && spec_keys_of(articles[n], tags)[j] == key ==> i == j
}

proof fn lemma_idx_add_lookup(
    idx: Seq<(Seq<char>, Seq<Seq<char>>)>,
    k: Seq<char>,
    u: Seq<char>,
    t: Seq<char>,
)
    ensures
        spec_idx_lookup(spec_idx_add(idx, k, u), t) == if k == t {
            spec_idx_lookup(idx, t).push(u)
        } else {
            spec_idx_lookup(idx, t)
        },
    decreases idx.len(),
{
    if idx.len() == 0 {
        let r = seq![(k, seq![u])];
        assert(r[0].0 == k);
        if k == t {
            assert(spec_idx_lookup(r, t) == seq![u]);
            assert(spec_idx_lookup(idx, t).push(u) =~= seq![u]);
        } else {
            assert(r.skip(1) =~= Seq::<(Seq<char>, Seq<Seq<char>>)>::empty());
            assert(spec_idx_lookup(r, t) == spec_idx_lookup(r.skip(1), t));
        }
    } else if idx[0].0 == k {
        let r = seq![(idx[0].0, idx[0].1.push(u))] + idx.skip(1);
        assert(r[0] == (idx[0].0, idx[0].1.push(u)));
        assert(r.skip(1) =~= idx.skip(1));
    } else {
        let r = seq![idx[0]] + spec_idx_add(idx.skip(1), k, u);
        assert(r[0] == idx[0]);
        assert(r.skip(1) =~= spec_idx_add(idx.skip(1), k, u));
        lemma_idx_add_lookup(idx.skip(1), k, u, t);
    }
}

proof fn lemma_idx_add_all_lookup(
    idx: Seq<(Seq<char>, Seq<Seq<char>>)>,
    keys: Seq<Seq<char>>,
    u: Seq<char>,
    t: Seq<char>,
)
    requires
        forall|i: int, j: int|
            0 <= i < keys.len() && 0 <= j < keys.len() && keys[i] == t && keys[j] == t ==> i == j,
    ensures
        spec_idx_lookup(spec_idx_add_all(idx, keys, u), t) == if keys.contains(t) {
            spec_idx_lookup(idx, t).push(u)
        } else {
            spec_idx_lookup(idx, t)
        },
    decreases keys.len(),
{
    if keys.len() == 0 {
        assert(!keys.contains(t));
    } else {
        let idx2 = spec_idx_add(idx, keys[0], u);
        lemma_idx_add_lookup(idx, keys[0], u, t);
        lemma_idx_add_all_lookup(idx2, keys.skip(1), u, t);
        if keys[0] == t {
            assert(keys.contains(t)) by {
                assert(keys[0] == t);
            }
            assert(!keys.skip(1).contains(t)) by {
                if keys.skip(1).contains(t) {
                    let j = choose|j: int| 0 <= j < keys.skip(1).len() && keys.skip(1)[j] == t;
                    assert(keys[j + 1] == t);
                }
            }
        } else {
            assert(keys.contains(t) <==> keys.skip(1).contains(t)) by {
                if keys.contains(t) {
                    let j = choose|j: int| 0 <= j < keys.len() && keys[j] == t;
                    assert(j != 0);
                    assert(keys.skip(1)[j - 1] == t);
                }
                if keys.skip(1).contains(t) {
                    let j = choose|j: int| 0 <= j < keys.skip(1).len() && keys.skip(1)[j] == t;
                    assert(keys[j + 1] == t);
                }
            }
        }
    }
}

proof fn lemma_index_fold_lookup(
    idx: Seq<(Seq<char>, Seq<Seq<char>>)>,
    articles: Seq<ArticleV>,
    t: Seq<char>,
    tags: bool,
)
    requires
        spec_key_once(articles, t, tags),
    ensures
        spec_idx_lookup(spec_index_fold(idx, articles, tags), t) == spec_idx_lookup(idx, t)
            + spec_urls_with(articles, t, tags),
    decreases articles.len(),
{
    if articles.len() == 0 {
        assert(spec_idx_lookup(idx, t) + Seq::<Seq<char>>::empty() =~= spec_idx_lookup(idx, t));
    } else {
        let keys = spec_keys_of(articles[0], tags);
        let idx2 = spec_idx_add_all(idx, keys, articles[0].url);
        assert(forall|i: int, j: int|
            0 <= i < keys.len() && 0 <= j < keys.len() && keys[i] == t && keys[j] == t ==> i
                == j) by {
            assert(spec_keys_of(articles[0], tags) == keys);
        }
        lemma_idx_add_all_lookup(idx, keys, articles[0].url, t);
        assert(spec_key_once(articles.skip(1), t, tags)) by {
            assert(forall|n: int|
                0 <= n < articles.skip(1).len() ==> #[trigger] articles.skip(1)[n] == articles[n
                    + 1]);
        }
        lemma_index_fold_lookup(idx2, articles.skip(1), t, tags);
        if keys.contains(t) {
            assert(spec_idx_lookup(idx, t).push(articles[0].url) + spec_urls_with(
                articles.skip(1),
                t,
                tags,
            ) =~= spec_idx_lookup(idx, t) + (seq![articles[0].url] + spec_urls_with(
                articles.skip(1),
                t,
                tags,
            )));
        } else {
            assert(spec_idx_lookup(idx, t) + spec_urls_with(articles.skip(1), t, tags)
                =~= spec_idx_lookup(idx, t) + (Seq::<Seq<char>>::empty() + spec_urls_with(
                articles.skip(1),
                t,
                tags,
            )));
        }
    }
}

/// Articles sharing a tag or a category: the index entry under the key
/// lists the URL of every article that carries it, in discovery order.
/// (Stated for key lists that do not repeat the key within one article.)
pub proof fn lemma_index_discovery_order(articles: Seq<ArticleV>, key: Seq<char>, tags: bool)
    requires
        spec_key_once(articles, key, tags),
    ensures
        spec_idx_lookup(spec_index_fold(Seq::empty(), articles, tags), key) == spec_urls_with(
            articles,
            key,
            tags,
        ),
{
    lemma_index_fold_lookup(Seq::empty(), articles, key, tags);
    assert(spec_idx_lookup(Seq::empty(), key) =~= Seq::<Seq<char>>::empty());
    assert(Seq::<Seq<char>>::empty() + spec_urls_with(articles, key, tags) =~= spec_urls_with(
        articles,
        key,
        tags,
    ));
}

/// One index entry in the making.
pub struct IndexEntry {
    pub key: String,
    pub urls: Vec<String>,
}

pub open spec fn spec_index_view(v: Seq<IndexEntry>) -> Seq<(Seq<char>, Seq<Seq<char>>)> {
    Seq::new(v.len(), |i: int| (v[i].key@, v[i].urls.deep_view()))
}

proof fn lemma_idx_add_at(
    idx: Seq<(Seq<char>, Seq<Seq<char>>)>,
    key: Seq<char>,
    url: Seq<char>,
    p: int,
)
    requires
        0 <= p < idx.len(),
        idx[p].0 == key,
        forall|k: int| 0 <= k < p ==> idx[k].0 != key,
    ensures
        spec_idx_add(idx, key, url) == idx.update(p, (key, idx[p].1.push(url))),
    decreases p,
{
    if p == 0 {
        assert(seq![(idx[0].0, idx[0].1.push(url))] + idx.skip(1) =~= idx.update(
            0,
            (key, idx[0].1.push(url)),
        ));
    } else {
        lemma_idx_add_at(idx.skip(1), key, url, p - 1);
        assert(seq![idx[0]] + idx.skip(1).update(p - 1, (key, idx.skip(1)[p - 1].1.push(url)))
            =~= idx.update(p, (key, idx[p].1.push(url))));
    }
}

proof fn lemma_idx_add_absent(idx: Seq<(Seq<char>, Seq<Seq<char>>)>, key: Seq<char>, url: Seq<char>)
    requires
        forall|k: int| 0 <= k < idx.len() ==> idx[k].0 != key,
    ensures
        spec_idx_add(idx, key, url) == idx.push((key, seq![url])),
    decreases idx.len(),
{
    if idx.len() == 0 {
        assert(seq![(key, seq![url])] =~= idx.push((key, seq![url])));
    } else {
        lemma_idx_add_absent(idx.skip(1), key, url);
        assert(seq![idx[0]] + idx.skip(1).push((key, seq![url])) =~= idx.push((key, seq![url])));
    }
}

fn index_add(v: &mut Vec<IndexEntry>, key: &String, url: &String)
    ensures
        spec_index_view(final(v)@) == spec_idx_add(spec_index_view(old(v)@), key@, url@),
{
    let n = v.len();
    let mut p: usize = 0;
    while p < n
        invariant
            0 <= p <= n,
            n == v@.len(),
            v@ == old(v)@,
            forall|k: int| 0 <= k < p ==> spec_index_view(v@)[k].0 != key@,
        decreases n - p,
    {
        if crate::text::str_eq(v[p].key.as_str(), key.as_str()) {
            let mut e = v.remove(p);
            e.urls.push(url.clone());
            let ghost ev = (e.key@, e.urls.deep_view());
            v.insert(p, e);
            proof {
                lemma_idx_add_at(spec_index_view(old(v)@), key@, url@, p as int);
                assert(ev.1 =~= spec_index_view(old(v)@)[p as int].1.push(url@));
                assert(spec_index_view(v@) =~= spec_index_view(old(v)@).update(
                    p as int,
                    (key@, spec_index_view(old(v)@)[p as int].1.push(url@)),
                ));
            }
            return ;
        }
        p = p + 1;
    }
    let mut urls: Vec<String> = Vec::new();
    urls.push(url.clone());
    let e = IndexEntry { key: key.clone(), urls };
    let ghost ev = (e.key@, e.urls.deep_view());
    v.push(e);
    proof {
        lemma_idx_add_absent(spec_index_view(old(v)@), key@, url@);
        assert(ev.1 =~= seq![url@]);
        assert(spec_index_view(v@) =~= spec_index_view(old(v)@).push((key@, seq![url@])));
    }
}

/// Builds the tag index (or the category index) over the loaded articles,
/// in discovery order.
pub fn build_index(articles: &Vec<Article>, tags: bool) -> (r: Vec<IndexEntry>)
    ensures
        spec_index_view(r@) == spec_index_fold(
            Seq::empty(),
            Seq::new(articles@.len(), |i: int| articles@[i]@),
            tags,
        ),
{
    let ghost arts = Seq::new(articles@.len(), |i: int| articles@[i]@);
    let mut v: Vec<IndexEntry> = Vec::new();
    let n = articles.len();
    let mut i: usize = 0;
    proof {
        assert(spec_index_view(v@) =~= Seq::<(Seq<char>, Seq<Seq<char>>)>::empty());
        assert(arts.skip(0) =~= arts);
    }
    while i < n
        invariant
            0 <= i <= n,
            n == articles@.len(),
            arts == Seq::new(articles@.len(), |k: int| articles@[k]@),
            spec_index_fold(Seq::empty(), arts, tags) == spec_index_fold(
                spec_index_view(v@),
                arts.skip(i as int),
                tags,
            ),
        decreases n - i,
    {
        let a = &articles[i];
        let keys: &Vec<String> = if tags {
            &a.config.tags
        } else {
            &a.config.categories
        };
        let ghost keyseq = spec_keys_of(arts[i as int], tags);
        let ghost urlv = arts[i as int].url;
        let m = keys.len();
        let mut j: usize = 0;
        proof {
            assert(arts.skip(i as int)[0] == arts[i as int]);
            assert(arts.skip(i as int).skip(1) =~= arts.skip(i + 1));
            assert(spec_index_fold(spec_index_view(v@), arts.skip(i as int), tags)
                == spec_index_fold(
                spec_idx_add_all(spec_index_view(v@), keyseq, urlv),
                arts.skip(i + 1),
                tags,
            ));
            assert(keyseq.skip(0) =~= keyseq);
        }
        while j < m
            invariant
                0 <= j <= m,
                m == keys@.len(),
                keyseq == keys.deep_view(),
                urlv == a.url@,
                spec_index_fold(Seq::empty(), arts, tags) == spec_index_fold(
                    spec_idx_add_all(spec_index_view(v@), keyseq.skip(j as int), urlv),
                    arts.skip(i + 1),
                    tags,
                ),
            decreases m - j,
        {
            proof {
                assert(keyseq.skip(j as int)[0] == keyseq[j as int]);
                assert(keyseq[j as int] == keys@[j as int]@);
            }
            index_add(&mut v, &keys[j], &a.url);
            j = j + 1;
            proof {
                assert(keyseq.skip(j - 1).skip(1) =~= keyseq.skip(j as int));
            }
        }
        i = i + 1;
        proof {
            assert(keyseq.skip(m as int).len() == 0);
        }
    }
    proof {
        assert(arts.skip(n as int).len() == 0);
    }
    v
}

// ---------------------------------------------------------------------------
// The backtrace translator
// ---------------------------------------------------------------------------

/// The line prefix with which the engine reports a failure inside a pulled-in
/// template.
pub open spec fn spec_marker() -> Seq<char> {
    seq!['f', 'r', 'o', 'm', ':', ' ', '{', '%', ' ', 'i', 'n', 'c', 'l', 'u', 'd', 'e']
}

pub fn marker_text() -> (r: String)
    ensures
        r@ == spec_marker(),
{
    let mut out = String::new();
    out.append("from: {% ");
    push_char(&mut out, 'i');
    push_char(&mut out, 'n');
    push_char(&mut out, 'c');
    push_char(&mut out, 'l');
    push_char(&mut out, 'u');
    push_char(&mut out, 'd');
    push_char(&mut out, 'e');
    proof {
        reveal_strlit("from: {% ");
        assert(out@ =~= spec_marker());
    }
    out
}

/// One line of an engine error, translated: the failure marker opens the
/// mode; inside it, a line opening an indented quoted template name gets the
/// name's on-disk path appended when the side table knows it; every other
/// line passes through.  Each line keeps its newline.
pub open spec fn spec_bt_line(
    line: Seq<char>,
    inside: bool,
    table: Seq<(Seq<char>, Seq<char>)>,
) -> (Seq<char>, bool) {
    if spec_starts_with(line, spec_marker()) {
        (line + seq!['\n'], true)
    } else if inside && spec_starts_with(line, "    \""@) {
        match spec_first_ix(line.skip(5), '"') {
            Some(ix) => {
                let name = line.subrange(5, 5 + ix);
                match spec_table_lookup(table, name) {
                    Some(path) => (
                        line + "\n    "@ + name + " = "@ + path + seq!['\n'],
                        inside,
                    ),
                    None => (line + seq!['\n'], inside),
                }
            },
            None => (line + seq!['\n'], inside),
        }
    } else {
        (line + seq!['\n'], inside)
    }
}

pub open spec fn spec_bt_fold(
    lines: Seq<Seq<char>>,
    inside: bool,
    table: Seq<(Seq<char>, Seq<char>)>,
) -> Seq<char>
    decreases lines.len(),
{
    if lines.len() == 0 {
        Seq::empty()
    } else {
        spec_bt_line(lines[0], inside, table).0 + spec_bt_fold(
            lines.skip(1),
            spec_bt_line(lines[0], inside, table).1,
            table,
        )
    }
}

/// The whole translated error: the marker line opens "inside" mode, known
/// template names gain `name = path` notes, unknown ones pass unchanged.
pub open spec fn spec_backtrace(error: Seq<char>, table: Seq<(Seq<char>, Seq<char>)>) -> Seq<
    char,
> {
    spec_bt_fold(spec_split(error, '\n'), false, table)
}

/// Translates internal template names in an engine error back to the on-disk
/// paths the side table remembers.  It never fails: what it cannot resolve
/// it copies through.
pub fn parse_backtrace(error: &str, templates: &PathTable) -> (r: String)
    ensures
        r@ == spec_backtrace(error@, templates@),
{
    let marker = marker_text();
    let lines = split_plain(error, '\n');
    let nl = lines.len();
    let mut out = String::new();
    let mut inside = false;
    let mut i: usize = 0;
    proof {
        assert(lines.deep_view().skip(0) =~= lines.deep_view());
        assert(out@ + spec_bt_fold(lines.deep_view(), false, templates@) =~= spec_bt_fold(
            lines.deep_view(),
            false,
            templates@,
        ));
    }
    while i < nl
        invariant
            0 <= i <= nl,
            nl == lines@.len(),
            nl == lines.deep_view().len(),
            lines.deep_view() == spec_split(error@, '\n'),
            marker@ == spec_marker(),
            spec_backtrace(error@, templates@) == out@ + spec_bt_fold(
                lines.deep_view().skip(i as int),
                inside,
                templates@,
            ),
        decreases nl - i,
    {
        let line: &str = lines[i];
        proof {
            assert(lines.deep_view().skip(i as int)[0] == lines.deep_view()[i as int]);
            assert(lines.deep_view()[i as int] == line@);
        }
        if starts_with(line, marker.as_str()) {
            out.append(line);
            push_char(&mut out, '\n');
            inside = true;
        } else if inside && starts_with(line, "    \"") {
            let n = line.unicode_len();
            proof {
                reveal_strlit("    \"");
                assert(line@.len() >= 5);
            }
            let rest = line.substring_char(5, n);
            proof {
                assert(rest@ =~= line@.skip(5));
            }
            match crate::text::find_char(rest, '"') {
                Some(ix) => {
                    proof {
                        assert(ix < rest@.len());
                        assert(5 + ix <= n);
                    }
                    let name = line.substring_char(5, 5 + ix);
                    proof {
                        assert(name@ =~= line@.subrange(5, 5 + ix as int));
                    }
                    match templates.lookup(name) {
                        Some(path) => {
                            let p = path.clone();
                            out.append(line);
                            out.append("\n    ");
                            out.append(name);
                            out.append(" = ");
                            out.append(p.as_str());
                            push_char(&mut out, '\n');
                        },
                        None => {
                            out.append(line);
                            push_char(&mut out, '\n');
                        },
                    }
                },
                None => {
                    out.append(line);
                    push_char(&mut out, '\n');
                },
            }
        } else {
            out.append(line);
            push_char(&mut out, '\n');
        }
        i = i + 1;
        proof {
            assert(lines.deep_view().skip(i - 1).skip(1) =~= lines.deep_view().skip(i as int));
        }
    }
    proof {
        assert(lines.deep_view().skip(nl as int).len() == 0);
        assert(out@ + Seq::<char>::empty() =~= out@);
    }
    out
}

// ---------------------------------------------------------------------------
// The render report
// ---------------------------------------------------------------------------

/// The pieces joined with the separator between them.
pub open spec fn spec_join_tail(items: Seq<Seq<char>>, sep: Seq<char>) -> Seq<char>
    decreases items.len(),
{
    if items.len() == 0 {
        Seq::empty()
    } else {
        sep + items[0] + spec_join_tail(items.skip(1), sep)
    }
}

pub open spec fn spec_join(items: Seq<Seq<char>>, sep: Seq<char>) -> Seq<char> {
    if items.len() == 0 {
        Seq::empty()
    } else {
        items[0] + spec_join_tail(items.skip(1), sep)
    }
}

fn join_comma(items: &Vec<String>) -> (r: String)
    ensures
        r@ == spec_join(items.deep_view(), ", "@),
{
    let mut out = String::new();
    let n = items.len();
    if n == 0 {
        proof {
            assert(out@ =~= spec_join(items.deep_view(), ", "@));
        }
        return out;
    }
    out.append(items[0].as_str());
    proof {
        assert(items.deep_view()[0] == items@[0]@);
        assert(items.deep_view().skip(0) =~= items.deep_view());
    }
    let mut i: usize = 1;
    while i < n
        invariant
            1 <= i <= n,
            n == items@.len(),
            n == items.deep_view().len(),
            spec_join(items.deep_view(), ", "@) == out@ + spec_join_tail(
                items.deep_view().skip(i as int),
                ", "@,
            ),
        decreases n - i,
    {
        proof {
            assert(items.deep_view().skip(i as int)[0] == items.deep_view()[i as int]);
            assert(items.deep_view()[i as int] == items@[i as int]@);
        }
        out.append(", ");
        out.append(items[i].as_str());
        i = i + 1;
        proof {
            assert(items.deep_view().skip(i - 1).skip(1) =~= items.deep_view().skip(i as int));
        }
    }
    proof {
        assert(items.deep_view().skip(n as int).len() == 0);
        assert(out@ + Seq::<char>::empty() =~= out@);
    }
    out
}

/// One article's render, done: its URL, its source path, and what the
/// engine returned.
pub struct RenderOutcome {
    pub url: String,
    pub path: String,
    pub result: Result<String, String>,
}

#[verifier::ext_equal]
pub ghost struct RenderOutcomeV {
    pub url: Seq<char>,
    pub path: Seq<char>,
    pub result: Result<Seq<char>, Seq<char>>,
}

impl View for RenderOutcome {
    type V = RenderOutcomeV;

    open spec fn view(&self) -> RenderOutcomeV {
        RenderOutcomeV {
            url: self.url@,
            path: self.path@,
            result: match self.result {
                Ok(ref s) => Ok(s@),
                Err(ref e) => Err(e@),
            },
        }
    }
}

impl DeepView for RenderOutcome {
    type V = RenderOutcomeV;

    open spec fn deep_view(&self) -> RenderOutcomeV {
        self.view()
    }
}

/// What a finished run reports: the pages to write, the per-article
/// failures, and the grouped template failures, one report per unique
/// message with every affected source file listed.
pub struct RunReport {
    pub pages: Vec<(String, String)>,
    pub failures: Vec<String>,
    pub grouped: Vec<String>,
}

pub open spec fn spec_pages_view(v: Seq<(String, String)>) -> Seq<(Seq<char>, Seq<char>)> {
    Seq::new(v.len(), |i: int| (v[i].0@, v[i].1@))
}

/// The aggregation state: pages and failures in arrival order, the grouped
/// failures keyed by their exact message.
pub ghost struct RepSt {
    pub pages: Seq<(Seq<char>, Seq<char>)>,
    pub failures: Seq<Seq<char>>,
    pub groups: Seq<(Seq<char>, Seq<Seq<char>>)>,
}

/// One outcome folded in: a success becomes a page; a failure whose message
/// does not carry the marker is reported alone with its file; one that does
/// is grouped under its message.
pub open spec fn spec_report_step(st: RepSt, o: RenderOutcomeV) -> RepSt {
    match o.result {
        Ok(html) => RepSt { pages: st.pages.push((o.url, html)), ..st },
        Err(e) => if !crate::text::spec_has_sub(e, spec_marker()) {
            RepSt { failures: st.failures.push(e + "file:\n   "@ + o.path + seq!['\n']), ..st }
        } else {
            RepSt { groups: spec_idx_add(st.groups, "Template "@ + e, o.path), ..st }
        },
    }
}

pub open spec fn spec_report_fold(st: RepSt, outcomes: Seq<RenderOutcomeV>) -> RepSt
    decreases outcomes.len(),
{
    if outcomes.len() == 0 {
        st
    } else {
        spec_report_fold(spec_report_step(st, outcomes[0]), outcomes.skip(1))
    }
}

/// One grouped report: the message (translated in backtrace mode) and every
/// affected source file.
pub open spec fn spec_group_report(
    key: Seq<char>,
    affected: Seq<Seq<char>>,
    backtrace: bool,
    table: Seq<(Seq<char>, Seq<char>)>,
) -> Seq<char> {
    (if backtrace {
        spec_backtrace(key, table)
    } else {
        key
    }) + "files that use this template:\n   "@ + spec_join(affected, ", "@) + seq!['\n']
}

pub open spec fn spec_group_reports(
    groups: Seq<(Seq<char>, Seq<Seq<char>>)>,
    backtrace: bool,
    table: Seq<(Seq<char>, Seq<char>)>,
) -> Seq<Seq<char>> {
    groups.map_values(|g: (Seq<char>, Seq<Seq<char>>)| spec_group_report(g.0, g.1, backtrace, table))
}

/// Folds the render outcomes into the run's report: pages in order,
/// stand-alone failures in order, and the grouped failures deduplicated by
/// exact message, each listing its affected files.
pub fn collect_report(outcomes: &Vec<RenderOutcome>, backtrace: bool, table: &PathTable) -> (r:
    RunReport)
    ensures
        ({
            let end = spec_report_fold(
                RepSt { pages: Seq::empty(), failures: Seq::empty(), groups: Seq::empty() },
                outcomes.deep_view(),
            );
            spec_pages_view(r.pages@) == end.pages && r.failures.deep_view() == end.failures
                && r.grouped.deep_view() == spec_group_reports(end.groups, backtrace, table@)
        }),
{
    let marker = marker_text();
    let mut pages: Vec<(String, String)> = Vec::new();
    let mut failures: Vec<String> = Vec::new();
    let mut groups: Vec<IndexEntry> = Vec::new();
    let n = outcomes.len();
    let mut i: usize = 0;
    let ghost init = RepSt { pages: Seq::empty(), failures: Seq::empty(), groups: Seq::empty() };
    proof {
        assert(outcomes.deep_view().skip(0) =~= outcomes.deep_view());
        assert(spec_pages_view(pages@) =~= init.pages);
        assert(failures.deep_view() =~= init.failures);
        assert(spec_index_view(groups@) =~= init.groups);
    }
    while i < n
        invariant
            0 <= i <= n,
            n == outcomes@.len(),
            n == outcomes.deep_view().len(),
            marker@ == spec_marker(),
            spec_report_fold(init, outcomes.deep_view()) == spec_report_fold(
                RepSt {
                    pages: spec_pages_view(pages@),
                    failures: failures.deep_view(),
                    groups: spec_index_view(groups@),
                },
                outcomes.deep_view().skip(i as int),
            ),
        decreases n - i,
    {
        proof {
            assert(outcomes.deep_view().skip(i as int)[0] == outcomes.deep_view()[i as int]);
            assert(outcomes.deep_view()[i as int] == outcomes@[i as int]@);
        }
        let o = &outcomes[i];
        match o.result {
            Ok(ref html) => {
                let ghost before = spec_pages_view(pages@);
                pages.push((o.url.clone(), html.clone()));
                proof {
                    assert(spec_pages_view(pages@) =~= before.push((o.url@, html@)));
                }
            },
            Err(ref e) => {
                if !crate::text::has_sub(e.as_str(), marker.as_str()) {
                    let mut m = e.clone();
                    m.append("file:\n   ");
                    m.append(o.path.as_str());
                    push_char(&mut m, '\n');
                    proof {
                        assert(m@ =~= e@ + "file:\n   "@ + o.path@ + seq!['\n']);
                    }
                    let ghost before = failures.deep_view();
                    failures.push(m);
                    proof {
                        assert(failures.deep_view() =~= before.push(
                            e@ + "file:\n   "@ + o.path@ + seq!['\n'],
                        ));
                    }
                } else {
                    let mut key = String::from_str("Template ");
                    key.append(e.as_str());
                    proof {
                        assert(key@ =~= "Template "@ + e@);
                    }
                    index_add(&mut groups, &key, &o.path);
                }
            },
        }
        i = i + 1;
        proof {
            assert(outcomes.deep_view().skip(i - 1).skip(1) =~= outcomes.deep_view().skip(
                i as int,
            ));
        }
    }
    proof {
        assert(outcomes.deep_view().skip(n as int).len() == 0);
    }
    let mut grouped: Vec<String> = Vec::new();
    let gn = groups.len();
    let mut g: usize = 0;
    while g < gn
        invariant
            0 <= g <= gn,
            gn == groups@.len(),
            marker@ == spec_marker(),
            grouped.deep_view() == spec_group_reports(
                spec_index_view(groups@),
                backtrace,
                table@,
            ).take(g as int),
        decreases gn - g,
    {
        let entry = &groups[g];
        let mut m: String;
        if backtrace {
            m = parse_backtrace(entry.key.as_str(), table);
        } else {
            m = entry.key.clone();
        }
        m.append("files that use this template:\n   ");
        let joined = join_comma(&entry.urls);
        m.append(joined.as_str());
        push_char(&mut m, '\n');
        proof {
            assert(m@ =~= spec_group_report(
                entry.key@,
                entry.urls.deep_view(),
                backtrace,
                table@,
            ));
        }
        let ghost before = grouped.deep_view();
        grouped.push(m);
        g = g + 1;
        proof {
            assert(spec_index_view(groups@)[g - 1] == (groups@[g - 1].key@, groups@[g
                - 1].urls.deep_view()));
            assert(grouped.deep_view() =~= before.push(
                spec_group_report(groups@[g - 1].key@, groups@[g - 1].urls.deep_view(), backtrace, table@),
            ));
            assert(spec_group_reports(spec_index_view(groups@), backtrace, table@).take(g as int)
                =~= before.push(
                spec_group_reports(spec_index_view(groups@), backtrace, table@)[g - 1],
            ));
        }
    }
    proof {
        assert(spec_group_reports(spec_index_view(groups@), backtrace, table@).take(gn as int)
            =~= spec_group_reports(spec_index_view(groups@), backtrace, table@));
    }
    RunReport { pages, failures, grouped }
}

// ---------------------------------------------------------------------------
// The global context and the run
// ---------------------------------------------------------------------------

/// The entries of an index turned into context entries: each key an array
/// of its URLs.
pub open spec fn spec_idx_entries(idx: Seq<(Seq<char>, Seq<Seq<char>>)>) -> Map<Seq<char>, CtxVal>
    decreases idx.len(),
{
    if idx.len() == 0 {
        crate::engine::no_entries()
    } else {
        spec_idx_entries(idx.take(idx.len() - 1)).insert(
            idx[idx.len() - 1].0,
            CtxVal::A(idx[idx.len() - 1].1.map_values(|u: Seq<char>| CtxVal::S(u))),
        )
    }
}

/// The build-wide context: every article's un-rendered page context in
/// order, and the two URL indexes.
pub open spec fn spec_global_entries(articles: Seq<ArticleV>) -> Map<Seq<char>, CtxVal> {
    crate::engine::no_entries().insert(
        "articles"@,
        CtxVal::A(articles.map_values(|a: ArticleV| CtxVal::O(spec_page_entries(a)))),
    ).insert(
        "tags"@,
        CtxVal::O(spec_idx_entries(spec_index_fold(Seq::empty(), articles, true))),
    ).insert(
        "cats"@,
        CtxVal::O(spec_idx_entries(spec_index_fold(Seq::empty(), articles, false))),
    )
}

/// The context models of a list of context objects.
pub open spec fn spec_obj_models(objs: Seq<liquid::Object>) -> Seq<CtxVal> {
    objs.map_values(|x: liquid::Object| CtxVal::O(obj_entries(x)))
}

/// The context models of a list of articles.
pub open spec fn spec_page_models(arts: Seq<ArticleV>) -> Seq<CtxVal> {
    arts.map_values(|a: ArticleV| CtxVal::O(spec_page_entries(a)))
}

fn index_object(idx: &Vec<IndexEntry>) -> (o: liquid::Object)
    ensures
        obj_entries(o) == spec_idx_entries(spec_index_view(idx@)),
{
    let mut o = obj_new();
    let n = idx.len();
    let mut i: usize = 0;
    proof {
        assert(spec_index_view(idx@).take(0) =~= Seq::<(Seq<char>, Seq<Seq<char>>)>::empty());
    }
    while i < n
        invariant
            0 <= i <= n,
            n == idx@.len(),
            obj_entries(o) == spec_idx_entries(spec_index_view(idx@).take(i as int)),
        decreases n - i,
    {
        let e = &idx[i];
        obj_insert_str_list(&mut o, e.key.as_str(), &e.urls);
        i = i + 1;
        proof {
            let v = spec_index_view(idx@);
            assert(v.take(i as int).take(i - 1) =~= v.take(i - 1));
            assert(v.take(i as int)[i - 1] == v[i - 1]);
            assert(e.urls.deep_view().map_values(|s: Seq<char>| CtxVal::S(s)) =~~= v[i
                - 1].1.map_values(|u: Seq<char>| CtxVal::S(u)));
        }
    }
    proof {
        assert(spec_index_view(idx@).take(n as int) =~= spec_index_view(idx@));
    }
    o
}

/// Builds the build-wide context object from the loaded articles.
pub fn global_object(articles: &Vec<Article>) -> (o: liquid::Object)
    ensures
        obj_entries(o) == spec_global_entries(
            Seq::new(articles@.len(), |i: int| articles@[i]@),
        ),
{
    let ghost arts = Seq::new(articles@.len(), |i: int| articles@[i]@);
    let mut objs: Vec<liquid::Object> = Vec::new();
    let n = articles.len();
    let mut i: usize = 0;
    proof {
        assert(spec_obj_models(objs@) =~= Seq::<CtxVal>::empty());
        assert(spec_page_models(arts.take(0)) =~= Seq::<CtxVal>::empty());
    }
    while i < n
        invariant
            0 <= i <= n,
            n == articles@.len(),
            arts == Seq::new(articles@.len(), |k: int| articles@[k]@),
            spec_obj_models(objs@) == spec_page_models(arts.take(i as int)),
        decreases n - i,
    {
        let po = crate::article::page_object(&articles[i]);
        let ghost pov = obj_entries(po);
        let ghost old_objs = objs@;
        objs.push(po);
        i = i + 1;
        proof {
            assert(pov == spec_page_entries(arts[i - 1]));
            assert(objs@ == old_objs.push(po));
            assert(spec_obj_models(old_objs).len() == old_objs.len());
            assert(spec_page_models(arts.take((i - 1) as int)).len() == i - 1);
            assert(old_objs.len() == i - 1);
            assert forall|k: int| 0 <= k < i implies spec_obj_models(objs@)[k] == spec_page_models(
                arts.take(i as int),
            )[k] by {
                assert(arts.take(i as int)[k] == arts[k]);
                if k < i - 1 {
                    assert(objs@[k] == old_objs[k]);
                    assert(spec_obj_models(old_objs)[k] == spec_page_models(
                        arts.take((i - 1) as int),
                    )[k]);
                    assert(arts.take((i - 1) as int)[k] == arts[k]);
                } else {
                    assert(objs@[k] == po);
                }
            }
            assert(spec_obj_models(objs@) =~= spec_page_models(arts.take(i as int)));
        }
    }
    let tag_idx = build_index(articles, true);
    let cat_idx = build_index(articles, false);
    let tags_obj = index_object(&tag_idx);
    let cats_obj = index_object(&cat_idx);
    let mut o = obj_new();
    obj_insert_obj_list(&mut o, "articles", objs);
    obj_insert_obj(&mut o, "tags", tags_obj);
    obj_insert_obj(&mut o, "cats", cats_obj);
    proof {
        assert(arts.take(n as int) =~= arts);
        assert(obj_entries(o) =~~= spec_global_entries(arts));
    }
    o
}

/// The engine's partial store as the template entries fill it, in order.
pub open spec fn spec_partials_of(entries: Seq<TemplateEntryV>) -> Map<Seq<char>, Seq<char>>
    decreases entries.len(),
{
    if entries.len() == 0 {
        crate::engine::no_partials()
    } else {
        spec_partials_of(entries.take(entries.len() - 1)).insert(
            entries[entries.len() - 1].name,
            entries[entries.len() - 1].source,
        )
    }
}

/// The outcomes `run` folds into its report: article `i` rendered to
/// `results[i]`, attributed to its URL and source path (an article past the
/// end of the path list reads an empty path).
pub open spec fn spec_outcomes_of(
    articles: Seq<ArticleV>,
    paths: Seq<Seq<char>>,
    results: Seq<Result<Seq<char>, Seq<char>>>,
) -> Seq<RenderOutcomeV> {
    Seq::new(
        articles.len(),
        |i: int|
            RenderOutcomeV {
                url: articles[i].url,
                path: if 0 <= i < paths.len() {
                    paths[i]
                } else {
                    Seq::empty()
                },
                result: results[i],
            },
    )
}

/// The report is `collect_report`'s fold over the articles in discovery
/// order, with `results` the per-article engine outcomes.
pub open spec fn spec_run_report(
    rep: RunReport,
    articles: Seq<ArticleV>,
    paths: Seq<Seq<char>>,
    backtrace: bool,
    table: Seq<(Seq<char>, Seq<char>)>,
    results: Seq<Result<Seq<char>, Seq<char>>>,
) -> bool {
    let end = spec_report_fold(
        RepSt { pages: Seq::empty(), failures: Seq::empty(), groups: Seq::empty() },
        spec_outcomes_of(articles, paths, results),
    );
    &&& results.len() == articles.len()
    &&& spec_pages_view(rep.pages@) == end.pages
    &&& rep.failures.deep_view() == end.failures
    &&& rep.grouped.deep_view() == spec_group_reports(end.groups, backtrace, table)
}

impl Build {
    /// Renders every article against the build-wide context, in discovery
    /// order, and aggregates the outcomes: the report is the aggregation
    /// fold over the articles' URLs, paths and some sequence of engine
    /// results; the grouped failures are translated in backtrace mode.  An
    /// empty batch is warned about; the per-article composition diagnostics
    /// land in `warnings`, which only ever grows.
    pub fn run(self, warnings: &mut Vec<String>) -> (r: Result<RunReport, BuildError>)
        ensures
            match r {
                Ok(rep) => exists|results: Seq<Result<Seq<char>, Seq<char>>>|
                    spec_run_report(
                        rep,
                        self@.articles,
                        self@.article_paths,
                        self@.backtrace,
                        self@.includes_paths,
                        results,
                    ),
                Err(e) => e is Engine && final(warnings).deep_view() == old(
                    warnings,
                ).deep_view(),
            },
            r is Ok && self@.articles.len() == 0 ==> final(warnings).deep_view() == old(
                warnings,
            ).deep_view().push("no articles found"@),
            r is Ok ==> exists|ext: Seq<Seq<char>>|
                final(warnings).deep_view() == old(warnings).deep_view() + ext,
    {
        let ghost selfv = self@;
        let mut src = crate::engine::partials_new();
        let tn = self.store.entries.len();
        let mut t: usize = 0;
        proof {
            assert(selfv.store.take(0) =~= Seq::<TemplateEntryV>::empty());
        }
        while t < tn
            invariant
                0 <= t <= tn,
                tn == self.store.entries@.len(),
                tn == selfv.store.len(),
                selfv.store == self@.store,
                crate::engine::partials_entries(src) == spec_partials_of(
                    selfv.store.take(t as int),
                ),
            decreases tn - t,
        {
            let entry = &self.store.entries[t];
            crate::engine::partials_add(&mut src, entry.name.as_str(), entry.source.as_str());
            t = t + 1;
            proof {
                assert(selfv.store.take(t as int).take(t - 1) =~= selfv.store.take(t - 1));
                assert(selfv.store.take(t as int)[t - 1] == selfv.store[t - 1]);
            }
        }
        proof {
            assert(selfv.store.take(tn as int) =~= selfv.store);
        }
        let parser = match crate::engine::parser_new(src) {
            Ok(p) => p,
            Err(e) => {
                return Err(BuildError::Engine(e));
            },
        };
        let n0 = self.articles.len();
        if n0 == 0 {
            warnings.push(String::from_str("no articles found"));
            proof {
                assert(warnings.deep_view() =~= old(warnings).deep_view().push(
                    "no articles found"@,
                ));
            }
        }
        let ghost w0 = warnings.deep_view();
        let global = global_object(&self.articles);
        proof {
            // every per-article render below receives this build-wide context
            assert(obj_entries(global) == spec_global_entries(selfv.articles));
        }
        let ghost orig_arts = Seq::new(self.articles@.len(), |i: int| self.articles@[i]@);
        let ghost orig_paths = self.article_paths.deep_view();
        let mut arts = self.articles;
        let mut paths = self.article_paths;
        let mut outcomes: Vec<RenderOutcome> = Vec::new();
        let ghost mut results: Seq<Result<Seq<char>, Seq<char>>> = Seq::empty();
        let mut k: usize = 0;
        proof {
            assert(orig_arts == selfv.articles);
            assert(orig_paths == selfv.article_paths);
            assert(outcomes.deep_view().len() == 0);
            assert(paths.deep_view() =~= orig_paths.skip(0));
            assert(w0 + Seq::<Seq<char>>::empty() =~= w0);
        }
        while arts.len() > 0
            invariant
                0 <= k <= n0,
                n0 == orig_arts.len(),
                k + arts@.len() == orig_arts.len(),
                orig_arts.len() == 0 ==> warnings.deep_view() == w0,
                forall|i: int| 0 <= i < arts@.len() ==> #[trigger] arts@[i]@ == orig_arts[k + i],
                paths.deep_view() == orig_paths.skip(
                    if k <= orig_paths.len() {
                        k as int
                    } else {
                        orig_paths.len() as int
                    },
                ),
                results.len() == k,
                outcomes.deep_view().len() == k,
                forall|i: int|
                    0 <= i < k ==> (#[trigger] outcomes.deep_view()[i]).url == orig_arts[i].url,
                forall|i: int|
                    0 <= i < k ==> (#[trigger] outcomes.deep_view()[i]).path == (if i
                        < orig_paths.len() {
                        orig_paths[i]
                    } else {
                        Seq::empty()
                    }),
                forall|i: int|
                    0 <= i < k ==> (#[trigger] outcomes.deep_view()[i]).result == results[i],
                exists|ext: Seq<Seq<char>>| warnings.deep_view() == w0 + ext,
            decreases arts@.len(),
        {
            let ghost arts_before = arts@;
            let ghost paths_before = paths.deep_view();
            let ghost paths_at = paths@;
            let a = arts.remove(0);
            let ghost av = a@;
            proof {
                assert(av == orig_arts[k as int]);
            }
            let path: String;
            if paths.len() > 0 {
                path = paths.remove(0);
                proof {
                    assert(paths_before.len() > 0);
                    assert(k < orig_paths.len());
                    assert(path@ == paths_at[0]@);
                    assert(paths_before[0] == paths_at[0]@);
                    assert(paths_before[0] == orig_paths.skip(k as int)[0]);
                    assert(path@ == orig_paths[k as int]);
                    assert(paths.deep_view() =~= paths_before.skip(1)) by {
                        assert(paths@ == paths_at.remove(0));
                        assert(forall|i: int|
                            0 <= i < paths@.len() ==> #[trigger] paths@[i] == paths_at[i + 1]);
                    }
                    assert(paths_before.skip(1) =~= orig_paths.skip(k + 1));
                }
            } else {
                path = String::new();
                proof {
                    assert(paths_before.len() == 0);
                    assert(k >= orig_paths.len());
                    assert(path@ =~= Seq::<char>::empty());
                }
            }
            let ghost pathv = path@;
            let url = a.url.clone();
            let ghost urlv = url@;
            let ghost w_before = warnings.deep_view();
            let result = a.true_render(&global, &parser, &self.store, warnings);
            let ghost rv: Result<Seq<char>, Seq<char>> = match result {
                Ok(ref s) => Ok(s@),
                Err(ref e) => Err(e@),
            };
            let ghost outcomes_before = outcomes.deep_view();
            let ghost outs_at = outcomes@;
            let ghost results_before = results;
            outcomes.push(RenderOutcome { url, path, result });
            proof {
                results = results.push(rv);
            }
            k = k + 1;
            proof {
                // the article and path suffixes advance by one
                assert(forall|i: int|
                    0 <= i < arts@.len() ==> #[trigger] arts@[i]@ == orig_arts[k + i]) by {
                    assert(forall|i: int|
                        0 <= i < arts@.len() ==> arts@[i] == arts_before[i + 1]);
                    assert(forall|i: int|
                        0 <= i < arts_before.len() ==> #[trigger] arts_before[i]@ == orig_arts[k
                            - 1 + i]);
                }
                if k <= orig_paths.len() {
                    assert(paths.deep_view() =~= orig_paths.skip(k as int));
                } else {
                    assert(paths.deep_view() =~= orig_paths.skip(orig_paths.len() as int));
                }
                // the outcome list records this article's url, path and result
                assert(outcomes@ == outs_at.push(outcomes@[outcomes@.len() - 1]));
                assert(outcomes.deep_view().len() == k);
                assert forall|i: int| 0 <= i < k implies {
                    &&& (#[trigger] outcomes.deep_view()[i]).url == orig_arts[i].url
                    &&& outcomes.deep_view()[i].path == (if i < orig_paths.len() {
                        orig_paths[i]
                    } else {
                        Seq::empty()
                    })
                    &&& outcomes.deep_view()[i].result == results[i]
                } by {
                    if i < k - 1 {
                        assert(outcomes@[i] == outs_at[i]);
                        assert(outcomes.deep_view()[i] == outcomes_before[i]);
                        assert(results[i] == results_before[i]);
                    } else {
                        assert(outcomes.deep_view()[i] == RenderOutcomeV {
                            url: urlv,
                            path: pathv,
                            result: rv,
                        });
                        assert(urlv == av.url && av.url == orig_arts[i].url);
                        assert(results[i] == rv);
                    }
                }
                // warnings only grew
                let ext0 = choose|ext: Seq<Seq<char>>| w_before == w0 + ext;
                let ext1 = choose|ext: Seq<Seq<char>>|
                    warnings.deep_view() == w_before + ext;
                assert(warnings.deep_view() == w_before + ext1);
                assert(w0 + (ext0 + ext1) =~= (w0 + ext0) + ext1);
                assert(warnings.deep_view() == w0 + (ext0 + ext1));
            }
        }
        proof {
            assert(outcomes.deep_view() =~~= spec_outcomes_of(orig_arts, orig_paths, results));
        }
        let report = collect_report(&outcomes, self.backtrace, &self.includes_paths);
        let r: Result<RunReport, BuildError> = Ok(report);
        proof {
            assert(results.len() == selfv.articles.len());
            assert(selfv == self@);
            assert(match r {
                Ok(rep) => spec_run_report(
                    rep,
                    self@.articles,
                    self@.article_paths,
                    self@.backtrace,
                    self@.includes_paths,
                    results,
                ),
                Err(_) => false,
            });
            assert(match r {
                Ok(rep) => exists|rs: Seq<Result<Seq<char>, Seq<char>>>|
                    spec_run_report(
                        rep,
                        self@.articles,
                        self@.article_paths,
                        self@.backtrace,
                        self@.includes_paths,
                        rs,
                    ),
                Err(_) => false,
            });
            let ext0 = choose|ext: Seq<Seq<char>>| warnings.deep_view() == w0 + ext;
            assert(warnings.deep_view() == w0 + ext0);
            if self@.articles.len() == 0 {
                assert(warnings.deep_view() == w0);
                assert(warnings.deep_view() == old(warnings).deep_view().push(
                    "no articles found"@,
                ));
                assert(warnings.deep_view() == old(warnings).deep_view() + seq![
                    "no articles found"@,
                ]) by {
                    assert(old(warnings).deep_view().push("no articles found"@) =~= old(
                        warnings,
                    ).deep_view() + seq!["no articles found"@]);
                }
                assert(exists|ext: Seq<Seq<char>>|
                    warnings.deep_view() == old(warnings).deep_view() + ext);
            } else {
                assert(w0 == old(warnings).deep_view());
                assert(exists|ext: Seq<Seq<char>>|
                    warnings.deep_view() == old(warnings).deep_view() + ext) by {
                    assert(warnings.deep_view() == old(warnings).deep_view() + ext0);
                }
            }
        }
        r
    }
}

// ---------------------------------------------------------------------------
// Stylesheets
// ---------------------------------------------------------------------------

/// The output name of a compiled stylesheet: the `.scss` ending replaced by
/// `.css`.
pub open spec fn spec_css_name(path: Seq<char>) -> Seq<char> {
    if crate::text::spec_ends_with(path, ".scss"@) {
        path.take(path.len() - 5) + ".css"@
    } else {
        path + ".css"@
    }
}

pub fn css_file_name(path: &str) -> (r: String)
    ensures
        r@ == spec_css_name(path@),
{
    let n = path.unicode_len();
    let mut out: String;
    if crate::text::ends_with(path, ".scss") {
        proof {
            reveal_strlit(".scss");
        }
        out = path.substring_char(0, n - 5).to_owned();
    } else {
        out = path.to_owned();
    }
    out.append(".css");
    proof {
        if crate::text::spec_ends_with(path@, ".scss"@) {
            assert(out@ =~= spec_css_name(path@));
        } else {
            assert(out@ =~= spec_css_name(path@));
        }
    }
    out
}

impl Build {
    /// Compiles each stylesheet source, pairing every input file with its
    /// output name and the compiler's outcome; the build itself is passed
    /// through unchanged.
    pub fn sass(self, files: &Vec<SourceFile>, load_paths: &Vec<String>) -> (r: (
        Build,
        Vec<(String, Result<String, String>)>,
    ))
        ensures
            r.0@ == self@,
            r.1@.len() == files@.len(),
            forall|i: int|
                0 <= i < files@.len() ==> (#[trigger] r.1@[i]).0@ == spec_css_name(
                    files@[i].path@,
                ),
    {
        let mut out: Vec<(String, Result<String, String>)> = Vec::new();
        let n = files.len();
        let mut i: usize = 0;
        while i < n
            invariant
                0 <= i <= n,
                n == files@.len(),
                out@.len() == i,
                forall|k: int|
                    0 <= k < i ==> (#[trigger] out@[k]).0@ == spec_css_name(files@[k].path@),
            decreases n - i,
        {
            let f = &files[i];
            let name = css_file_name(f.path.as_str());
            let compiled = crate::engine::compile_scss(f.content.as_str(), load_paths);
            out.push((name, compiled));
            i = i + 1;
        }
        (self, out)
    }
}

} // verus!
