use vstd::prelude::*;

verus! {

// ---------------------------------------------------------------------------
// Declared outside types
// ---------------------------------------------------------------------------

#[verifier::external_type_specification]
#[verifier::external_body]
pub struct ExLiquidObject(liquid::Object);

#[verifier::external_type_specification]
#[verifier::external_body]
pub struct ExLiquidParser(liquid::Parser);

#[verifier::external_type_specification]
#[verifier::external_body]
pub struct ExInMemorySource(liquid::partials::InMemorySource);

// ---------------------------------------------------------------------------
// The model of a template context value
// ---------------------------------------------------------------------------

/// What one slot of a template context holds: a string, a boolean, an array,
/// or a nested string-keyed object.
#[verifier::ext_equal]
pub ghost enum CtxVal {
    S(Seq<char>),
    B(bool),
    A(Seq<CtxVal>),
    O(Map<Seq<char>, CtxVal>),
}

/// What a context object of the engine holds, entry by entry.
pub uninterp spec fn obj_entries(o: liquid::Object) -> Map<Seq<char>, CtxVal>;

/// The contents of a context object with nothing in it.
pub open spec fn no_entries() -> Map<Seq<char>, CtxVal> {
    Map::empty()
}

/// What a partial-template source holds: template source text by name.
pub uninterp spec fn partials_entries(p: liquid::partials::InMemorySource) -> Map<
    Seq<char>,
    Seq<char>,
>;

/// The contents of a partial-template source with nothing in it.
pub open spec fn no_partials() -> Map<Seq<char>, Seq<char>> {
    Map::empty()
}

// ---------------------------------------------------------------------------
// Context objects
// ---------------------------------------------------------------------------

/// Relies on liquid's `Object::new`: the new object is empty.
#[verifier::external_body]
pub fn obj_new() -> (r: liquid::Object)
    ensures
        obj_entries(r) == no_entries(),
{
    liquid::Object::new()
}

/// Relies on liquid's `Object::clone` (derived over its map): the copy
/// holds the same entries.
#[verifier::external_body]
pub fn obj_clone(o: &liquid::Object) -> (r: liquid::Object)
    ensures
        obj_entries(r) == obj_entries(*o),
{
    o.clone()
}

/// Relies on liquid's `Object::insert`: adds the entry, a scalar string,
/// replacing any entry under the same key.
#[verifier::external_body]
pub fn obj_insert_str(o: &mut liquid::Object, key: &str, val: &str)
    ensures
        obj_entries(*final(o)) == obj_entries(*old(o)).insert(key@, CtxVal::S(val@)),
{
    o.insert(liquid::model::KString::from_ref(key), liquid::model::Value::scalar(val.to_owned()));
}

/// Relies on liquid's `Object::insert`: adds the entry, a scalar boolean.
#[verifier::external_body]
pub fn obj_insert_bool(o: &mut liquid::Object, key: &str, val: bool)
    ensures
        obj_entries(*final(o)) == obj_entries(*old(o)).insert(key@, CtxVal::B(val)),
{
    o.insert(liquid::model::KString::from_ref(key), liquid::model::Value::scalar(val));
}

/// Relies on liquid's `Object::insert`: adds the entry, an array holding the
/// given strings in order.
#[verifier::external_body]
pub fn obj_insert_str_list(o: &mut liquid::Object, key: &str, items: &Vec<String>)
    ensures
        obj_entries(*final(o)) == obj_entries(*old(o)).insert(
            key@,
            CtxVal::A(items.deep_view().map_values(|s: Seq<char>| CtxVal::S(s))),
        ),
{
    let vals: Vec<liquid::model::Value> = items.iter().map(
        |s| liquid::model::Value::scalar(s.clone()),
    ).collect();
    o.insert(liquid::model::KString::from_ref(key), liquid::model::Value::Array(vals));
}

/// Relies on liquid's `Object::insert`: adds the entry, a nested object.
#[verifier::external_body]
pub fn obj_insert_obj(o: &mut liquid::Object, key: &str, val: liquid::Object)
    ensures
        obj_entries(*final(o)) == obj_entries(*old(o)).insert(key@, CtxVal::O(obj_entries(val))),
{
    o.insert(liquid::model::KString::from_ref(key), liquid::model::Value::Object(val));
}

/// Relies on liquid's `Object::insert`: adds the entry, an array holding the
/// given objects in order.
#[verifier::external_body]
pub fn obj_insert_obj_list(o: &mut liquid::Object, key: &str, items: Vec<liquid::Object>)
    ensures
        obj_entries(*final(o)) == obj_entries(*old(o)).insert(
            key@,
            CtxVal::A(items@.map_values(|x: liquid::Object| CtxVal::O(obj_entries(x)))),
        ),
{
    let vals: Vec<liquid::model::Value> = items.into_iter().map(
        liquid::model::Value::Object,
    ).collect();
    o.insert(liquid::model::KString::from_ref(key), liquid::model::Value::Array(vals));
}

// ---------------------------------------------------------------------------
// Partials and the parser
// ---------------------------------------------------------------------------

/// Relies on liquid's `InMemorySource::new`: the new source is empty.
#[verifier::external_body]
pub fn partials_new() -> (r: liquid::partials::InMemorySource)
    ensures
        partials_entries(r) == no_partials(),
{
    liquid::partials::InMemorySource::new()
}

/// Relies on liquid's `InMemorySource::add`: stores the template source under
/// the name, replacing any previous entry, and reports whether one was there.
#[verifier::external_body]
pub fn partials_add(src: &mut liquid::partials::InMemorySource, name: &str, text: &str) -> (r:
    bool)
    ensures
        partials_entries(*final(src)) == partials_entries(*old(src)).insert(name@, text@),
        r == partials_entries(*old(src)).dom().contains(name@),
{
    src.add(name, text)
}

/// Relies on liquid's `ParserBuilder`: a parser with the standard filters and
/// tags and the given partials compiled in.  Compiling a partial may fail, so
/// nothing is promised of the outcome.
#[verifier::external_body]
pub fn parser_new(src: liquid::partials::InMemorySource) -> (r: Result<liquid::Parser, String>)
{
    liquid::ParserBuilder::with_stdlib().partials(
        liquid::partials::EagerCompiler::new(src),
    ).build().map_err(|e| e.to_string())
}

/// Relies on liquid's `Parser::parse` and `Template::render`: parses the text
/// as a template and renders it against the given context object.  What the
/// engine returns may depend on how it walks its own tables, so nothing is
/// promised of the outcome.
#[verifier::external_body]
pub fn engine_render(parser: &liquid::Parser, text: &str, ctx: &liquid::Object) -> (r: Result<
    String,
    String,
>)
{
    match parser.parse(text) {
        Ok(t) => t.render(ctx).map_err(|e| e.to_string()),
        Err(e) => Err(e.to_string()),
    }
}

// ---------------------------------------------------------------------------
// Markdown
// ---------------------------------------------------------------------------

/// The HTML that the markdown converter produces for the given text.
pub uninterp spec fn html_of(md: Seq<char>) -> Seq<char>;

/// Relies on pulldown-cmark's `Parser::new_ext` and `html::push_html`:
/// converts markdown to HTML; the result is a function of the text alone.
#[verifier::external_body]
pub fn markdown_to_html(md: &str) -> (r: String)
    ensures
        r@ == html_of(md@),
{
    let parser = pulldown_cmark::Parser::new_ext(md, pulldown_cmark::Options::empty());
    let mut out = String::new();
    pulldown_cmark::html::push_html(&mut out, parser);
    out
}

// ---------------------------------------------------------------------------
// Stylesheets
// ---------------------------------------------------------------------------

/// Relies on grass's `from_string`: compiles SCSS source to CSS, reading
/// imports from the load paths on disk, so nothing is promised of the
/// outcome.
#[verifier::external_body]
pub fn compile_scss(source: &str, load_paths: &Vec<String>) -> (r: Result<String, String>)
{
    let paths: Vec<&std::path::Path> = load_paths.iter().map(std::path::Path::new).collect();
    match grass::from_string(source.to_owned(), &grass::Options::default().load_paths(&paths)) {
        Ok(css) => Ok(css),
        Err(e) => Err(e.to_string()),
    }
}

} // verus!
