//! The templates of one build: their sources by name, and what the
//! template engine makes of them.

use std::collections::BTreeMap;
use vstd::prelude::*;
use vstd::utf8::{decode_utf8, encode_utf8, valid_utf8};
use crate::dict::{
    distinct_keys, find, lemma_map_of_absent, lemma_map_of_at, map_of, texts, Dict,
};
use crate::fsutil::{
    assemble, components, cut_extension, extension, has_extension, html_ext, is_absolute,
    is_parent_dir, joined_all, names_only, only_names, parent, parent_dir, parent_of, stem_of,
    text_of,
};
use crate::minify::{minified, settled, Type, Written, WrittenView};
use crate::order::deep;
use crate::paths::{joined, lemma_relative_of_joined, relative, strip_prefix};

verus! {

/// minijinja's `Value`: a value as a template sees it. It is handed on as
/// it comes; nothing is known of what it holds.
#[verifier::external_type_specification]
#[verifier::external_body]
pub struct ExEngineValue(minijinja::Value);

/// minijinja's `Error`: why a render failed. It is handed on as it comes;
/// nothing is known of what it holds.
#[verifier::external_type_specification]
#[verifier::external_body]
pub struct ExEngineError(minijinja::Error);

/// Why a path gives no template name.
#[derive(Debug, PartialEq, Eq, Structural)]
pub enum NameError {
    /// The path does not lie under the source tree.
    Outside,
    /// The bytes of the name are not UTF-8.
    NotText,
}

/// Why a render gives no text.
#[derive(Debug)]
pub enum RenderError {
    /// The target has no directory to be written into.
    NoParent,
    /// A variable of the context is not held as JSON text.
    Value,
    /// The template engine failed; the text says how.
    Template(String),
    /// The transform against scraping failed; the text says how.
    Transform(String),
}

/// The components `rel` with the extension cut off the last one, unless
/// that is `..`.
pub open spec fn stemmed(rel: Seq<Seq<u8>>) -> Seq<Seq<u8>> {
    if rel.len() > 0 && rel.last() != parent_dir() {
        rel.drop_last().push(stem_of(rel.last()))
    } else {
        rel
    }
}

/// The bytes of the name of the template whose path, as seen from the
/// source tree, has the components `rel`: the components that go into a
/// name, the last without its extension, with one `/` between each two.
pub open spec fn name_of(rel: Seq<Seq<u8>>) -> Seq<u8> {
    joined_all(names_only(stemmed(rel)))
}

/// The bytes of the name of the template at `path` in the source tree
/// `www`: made of the path as seen from `www`.
pub open spec fn template_name_bytes(path: Seq<u8>, www: Seq<u8>) -> Option<Seq<u8>> {
    match relative(path, www) {
        Some(rel) => Some(name_of(rel)),
        None => None,
    }
}

/// A template's name is made from its path as seen from the source tree
/// alone: whatever the tree is called, the template at `rel` in it is named
/// by the components of `rel`.
pub proof fn lemma_template_name_by_relative_path(www: Seq<u8>, rel: Seq<u8>)
    requires
        www.len() > 0,
        !is_absolute(rel),
    ensures
        template_name_bytes(joined(www, rel), www) == Some(name_of(components(rel))),
{
    lemma_relative_of_joined(www, rel);
}

/// The variable that tells a template whether the build is for production.
pub open spec fn prod_key() -> Seq<char> {
    "__prod"@
}

/// A truth value as the context holds it.
pub open spec fn flag_text(flag: bool) -> Seq<char> {
    if flag {
        "true"@
    } else {
        "false"@
    }
}

/// `context` over the base context, which holds the production flag: a
/// variable of that name in `context` counts.
pub open spec fn with_base(context: Map<Seq<char>, Seq<char>>, prod: bool) -> Map<
    Seq<char>,
    Seq<char>,
> {
    Map::<Seq<char>, Seq<char>>::empty().insert(prod_key(), flag_text(prod)).union_prefer_right(
        context,
    )
}

/// What is written to `target` for the page `text`: a file with the
/// extension `html` is made smaller as a page, any other gets the text as
/// it is.
pub open spec fn finished(target: Seq<u8>, text: Seq<char>, prod: bool) -> WrittenView {
    if extension(target) == Some(html_ext()) {
        settled(encode_utf8(text), minified(Type::Html, encode_utf8(text), prod))
    } else {
        WrittenView { bytes: encode_utf8(text), error: None }
    }
}

/// Whether `r` is what making the page for the file `target` comes to:
/// as `rendered` has it where no text is rendered; else, with the transform
/// switched off by `antidote`, what is written for the rendered text; else
/// what is written for what `transform` made of a page with the rendered
/// text, or the failure of the transform.
pub open spec fn produced<F: FnOnce(String) -> Result<String, String>>(
    templates: Map<Seq<char>, Seq<char>>,
    name: Seq<char>,
    target: Seq<u8>,
    context: Map<Seq<char>, Seq<char>>,
    prod: bool,
    antidote: bool,
    transform: F,
    r: Result<Written, RenderError>,
) -> bool {
    if parent(target) is None {
        r matches Err(RenderError::NoParent)
    } else if unreadable(with_base(context, prod)) {
        r matches Err(RenderError::Value)
    } else {
        match engine_output(templates, name, with_base(context, prod)) {
            Err(why) => r matches Err(RenderError::Template(said)) && said@ == why,
            Ok(text) => if antidote {
                r matches Ok(out) && out@ == finished(target, text, prod)
            } else {
                exists|page: String, made: Result<String, String>|
                    page@ == text && #[trigger] transform.ensures((page,), made) && match made {
                        Ok(marked) => r matches Ok(out) && out@ == finished(target, marked@, prod),
                        Err(why) => r matches Err(RenderError::Transform(said)) && said@ == why@,
                    }
            },
        }
    }
}

/// Whether two outcomes of the transform are the same text or the same
/// failure.
pub open spec fn same_outcome(one: Result<String, String>, other: Result<String, String>) -> bool {
    match (one, other) {
        (Ok(a), Ok(b)) => a@ == b@,
        (Err(a), Err(b)) => a@ == b@,
        _ => false,
    }
}

/// Whether two results of making a page write the same bytes with the same
/// report, or fail alike.
pub open spec fn same_page(
    one: Result<Written, RenderError>,
    other: Result<Written, RenderError>,
) -> bool {
    match (one, other) {
        (Ok(a), Ok(b)) => a@ == b@,
        (Err(RenderError::NoParent), Err(RenderError::NoParent)) => true,
        (Err(RenderError::Value), Err(RenderError::Value)) => true,
        (Err(RenderError::Template(a)), Err(RenderError::Template(b))) => a@ == b@,
        (Err(RenderError::Transform(a)), Err(RenderError::Transform(b))) => a@ == b@,
        _ => false,
    }
}

/// A page made twice from the same templates, name, target, context and
/// mode is the same page, byte for byte, as long as the transform makes
/// one thing of one page.
pub proof fn lemma_same_render_same_page<F: FnOnce(String) -> Result<String, String>>(
    templates: Map<Seq<char>, Seq<char>>,
    name: Seq<char>,
    target: Seq<u8>,
    context: Map<Seq<char>, Seq<char>>,
    prod: bool,
    antidote: bool,
    transform: F,
    first: Result<Written, RenderError>,
    second: Result<Written, RenderError>,
)
    requires
        produced(templates, name, target, context, prod, antidote, transform, first),
        produced(templates, name, target, context, prod, antidote, transform, second),
        forall|page: String, again: String, made: Result<String, String>, remade: Result<String, String>|
            page@ == again@ && #[trigger] transform.ensures((page,), made)
                && #[trigger] transform.ensures((again,), remade) ==> same_outcome(made, remade),
    ensures
        same_page(first, second),
{
    if parent(target) is Some && !unreadable(with_base(context, prod)) && !antidote {
        match engine_output(templates, name, with_base(context, prod)) {
            Ok(text) => {
                let (page, made) = choose|page: String, made: Result<String, String>|
                    page@ == text && #[trigger] transform.ensures((page,), made) && match made {
                        Ok(marked) => first matches Ok(out) && out@ == finished(
                            target,
                            marked@,
                            prod,
                        ),
                        Err(why) => first matches Err(RenderError::Transform(said)) && said@
                            == why@,
                    };
                let (again, remade) = choose|again: String, remade: Result<String, String>|
                    again@ == text && #[trigger] transform.ensures((again,), remade)
                        && match remade {
                        Ok(marked) => second matches Ok(out) && out@ == finished(
                            target,
                            marked@,
                            prod,
                        ),
                        Err(why) => second matches Err(RenderError::Transform(said)) && said@
                            == why@,
                    };
                assert(same_outcome(made, remade));
            },
            Err(_) => {},
        }
    }
}

/// What serde_json says against reading `text` as a JSON value: nothing
/// where it reads it, else its message.
pub uninterp spec fn json_failure(text: Seq<char>) -> Option<Seq<char>>;

/// Whether a variable of `context` is not held as JSON text.
pub open spec fn unreadable(context: Map<Seq<char>, Seq<char>>) -> bool {
    exists|key: Seq<char>| context.dom().contains(key) && json_failure(#[trigger] context[key]) is Some
}

/// Whether `r` is what rendering the template `name` of `templates` for
/// the file `target` comes to, with `context` laid over the base context:
/// `NoParent` where the target has no directory, else `Value` where a
/// variable is not held as JSON text, else what the engine returns.
pub open spec fn rendered(
    templates: Map<Seq<char>, Seq<char>>,
    name: Seq<char>,
    target: Seq<u8>,
    context: Map<Seq<char>, Seq<char>>,
    prod: bool,
    r: Result<String, RenderError>,
) -> bool {
    if parent(target) is None {
        r matches Err(RenderError::NoParent)
    } else if unreadable(with_base(context, prod)) {
        r matches Err(RenderError::Value)
    } else {
        match engine_output(templates, name, with_base(context, prod)) {
            Ok(text) => r matches Ok(out) && out@ == text,
            Err(why) => r matches Err(RenderError::Template(said)) && said@ == why,
        }
    }
}

/// What the template engine returns for the template `name`, with
/// `templates` as the sources it can load by name and `context` as the
/// variables, each held as JSON text: the rendered text, or the engine's
/// message where it fails. It speaks of contexts whose variables all read
/// as JSON only.
pub uninterp spec fn engine_output(
    templates: Map<Seq<char>, Seq<char>>,
    name: Seq<char>,
    context: Map<Seq<char>, Seq<char>>,
) -> Result<Seq<char>, Seq<char>>;

/// minijinja's `Error::new`, with the kind `InvalidOperation` and `detail`
/// as the message. Nothing is claimed of the error.
#[verifier::external_body]
fn invalid_operation(detail: String) -> minijinja::Error {
    minijinja::Error::new(minijinja::ErrorKind::InvalidOperation, detail)
}

/// serde_json's `from_str`, asked for a minijinja `Value`: whether `text`
/// reads as a JSON value, and serde_json's message where it does not. The
/// claim is that the outcome depends on `text` alone.
#[verifier::external_body]
fn json_check(text: &String) -> (r: Option<String>)
    ensures
        match r {
            Some(why) => json_failure(text@) == Some(why@),
            None => json_failure(text@) is None,
        },
{
    match serde_json::from_str::<minijinja::Value>(text) {
        Ok(_) => None,
        Err(err) => Some(err.to_string()),
    }
}

/// minijinja's `Template::render`, on an `Environment::new` that has the
/// filter `required` and loads its sources from `sources`, with the
/// variables of `variables`, each turned from its JSON text into a
/// minijinja `Value` by `serde_json::from_str`. Only variables that read as
/// JSON are handed in. The claim is that the outcome, text or message,
/// depends on the sources by name, the name and the variables by name alone.
#[verifier::external_body]
fn engine_render(
    sources: Vec<(String, String)>,
    name: &String,
    variables: Vec<(String, String)>,
) -> (r: Result<String, String>)
    requires
        distinct_keys(texts(sources@)),
        forall|i: int| 0 <= i < variables@.len() ==> json_failure(texts(variables@)[i].1) is None,
    ensures
        match r {
            Ok(text) => engine_output(map_of(texts(sources@)), name@, map_of(texts(variables@)))
                == Ok::<Seq<char>, Seq<char>>(text@),
            Err(why) => engine_output(map_of(texts(sources@)), name@, map_of(texts(variables@)))
                == Err::<Seq<char>, Seq<char>>(why@),
        },
{
    let mut env = minijinja::Environment::new();
    env.add_filter("required", required_filter);
    env.set_loader(move |wanted| Ok(find(&sources, wanted)));
    let mut context: BTreeMap<String, minijinja::Value> = BTreeMap::new();
    for (key, json) in variables {
        context.insert(key, serde_json::from_str(&json).map_err(|e| e.to_string())?);
    }
    env.get_template(name).and_then(|t| t.render(context)).map_err(|e| e.to_string())
}

/// Whether every variable of `variables` is held as JSON text.
fn all_readable(variables: &Vec<(String, String)>) -> (r: bool)
    requires
        distinct_keys(texts(variables@)),
    ensures
        r == !unreadable(map_of(texts(variables@))),
        r ==> forall|i: int|
            0 <= i < variables@.len() ==> json_failure(texts(variables@)[i].1) is None,
{
    let ghost pairs = texts(variables@);
    let mut i: usize = 0;
    while i < variables.len()
        invariant
            i <= variables.len(),
            pairs == texts(variables@),
            distinct_keys(pairs),
            forall|j: int| 0 <= j < i ==> json_failure(pairs[j].1) is None,
        decreases variables.len() - i,
    {
        if json_check(&variables[i].1).is_some() {
            proof {
                lemma_map_of_at(pairs, i as int);
                assert(json_failure(map_of(pairs)[pairs[i as int].0]) is Some);
            }
            return false;
        }
        i += 1;
    }
    proof {
        if unreadable(map_of(pairs)) {
            let key = choose|key: Seq<char>|
                map_of(pairs).dom().contains(key) && json_failure(#[trigger] map_of(pairs)[key])
                    is Some;
            if forall|j: int| 0 <= j < pairs.len() ==> pairs[j].0 != key {
                lemma_map_of_absent(pairs, key);
            }
            let j = choose|j: int| 0 <= j < pairs.len() && pairs[j].0 == key;
            lemma_map_of_at(pairs, j);
        }
    }
    true
}

/// The filter `required`: hands a value on, and fails the render with
/// `error_message` where there is none.
pub fn required_filter(value: Option<minijinja::Value>, error_message: String) -> (r: Result<
    minijinja::Value,
    minijinja::Error,
>)
    ensures
        match value {
            Some(v) => r == Ok::<minijinja::Value, minijinja::Error>(v),
            None => r is Err,
        },
{
    match value {
        Some(v) => Ok(v),
        None => Err(invalid_operation(error_message)),
    }
}

/// The name of the template at `path` in the source tree `www`.
pub fn template_name(path: &[u8], www: &[u8]) -> (r: Result<String, NameError>)
    ensures
        match template_name_bytes(path@, www@) {
            None => r == Err::<String, NameError>(NameError::Outside),
            Some(bytes) => if valid_utf8(bytes) {
                r matches Ok(name) && name@ == decode_utf8(bytes)
            } else {
                r == Err::<String, NameError>(NameError::NotText)
            },
        },
{
    match strip_prefix(path, www) {
        None => Err(NameError::Outside),
        Some(rel) => {
            let mut comps = rel;
            let ghost all = deep(comps@);
            match comps.pop() {
                Some(last) => {
                    assert(last@ == all.last());
                    assert(deep(comps@) =~= all.drop_last());
                    let mut name = last;
                    if !is_parent_dir(name.as_slice()) {
                        cut_extension(&mut name);
                    }
                    let ghost front = deep(comps@);
                    comps.push(name);
                    assert(deep(comps@) =~= front.push(name@));
                },
                None => {},
            }
            assert(deep(comps@) == stemmed(all));
            let kept = only_names(&comps);
            match text_of(assemble(false, &kept)) {
                Some(name) => Ok(name),
                None => Err(NameError::NotText),
            }
        },
    }
}

/// The templates of one build, by name.
pub struct JinjaEnvironment {
    templates: Dict,
}

impl View for JinjaEnvironment {
    type V = Map<Seq<char>, Seq<char>>;

    /// The source of each template, by name.
    closed spec fn view(&self) -> Map<Seq<char>, Seq<char>> {
        self.templates@
    }
}

impl JinjaEnvironment {
    /// The names of the templates, in the order in which they first came.
    pub closed spec fn names(self) -> Seq<Seq<char>> {
        self.templates.key_seq()
    }

    /// An environment without templates.
    pub fn new() -> (r: JinjaEnvironment)
        ensures
            r@ == Map::<Seq<char>, Seq<char>>::empty(),
            r.names() == Seq::<Seq<char>>::empty(),
    {
        let r = JinjaEnvironment { templates: Dict::new() };
        assert(r.names() =~= Seq::<Seq<char>>::empty());
        r
    }

    /// Takes `source` as the template `name`. A template of that name that
    /// came before is replaced, and keeps its place among the names.
    pub fn insert(&mut self, name: String, source: String)
        ensures
            final(self)@ == old(self)@.insert(name@, source@),
            final(self).names() == if old(self).names().contains(name@) {
                old(self).names()
            } else {
                old(self).names().push(name@)
            },
    {
        self.templates.insert(name, source);
    }

    /// Takes `source` as the template at `path` in the source tree `www`.
    /// A template of the same name that came before is replaced.
    pub fn register(&mut self, path: &[u8], www: &[u8], source: String) -> (r: Result<
        (),
        NameError,
    >)
        ensures
            match template_name_bytes(path@, www@) {
                None => r == Err::<(), NameError>(NameError::Outside) && *final(self) == *old(self),
                Some(bytes) => if valid_utf8(bytes) {
                    &&& r is Ok
                    &&& final(self)@ == old(self)@.insert(decode_utf8(bytes), source@)
                    &&& final(self).names() == if old(self).names().contains(decode_utf8(bytes)) {
                        old(self).names()
                    } else {
                        old(self).names().push(decode_utf8(bytes))
                    }
                } else {
                    r == Err::<(), NameError>(NameError::NotText) && *final(self) == *old(self)
                },
            },
    {
        match template_name(path, www) {
            Ok(name) => {
                self.insert(name, source);
                Ok(())
            },
            Err(e) => Err(e),
        }
    }

    /// The names of all templates, in the order in which they first came,
    /// each once.
    pub fn all(&self) -> (r: Vec<String>)
        ensures
            r@.map_values(|s: String| s@) == self.names(),
            self.names().no_duplicates(),
            forall|name: Seq<char>| self.names().contains(name) <==> self@.dom().contains(name),
    {
        let r = self.templates.keys();
        proof {
            self.templates.lemma_keys_are_domain();
        }
        r
    }

    /// The source of the template `name`, if there is one.
    pub fn source(&self, name: &String) -> (r: Option<&String>)
        ensures
            match r {
                Some(text) => self@.dom().contains(name@) && self@[name@] == text@,
                None => !self@.dom().contains(name@),
            },
    {
        self.templates.get(name)
    }

    /// Renders the template `name` for the file `target`, with `context`
    /// laid over the base context. Fails without asking the engine where
    /// `target` has no directory to be written into, and where a variable
    /// is not held as JSON text.
    pub fn render_text(&self, name: &String, target: &[u8], context: &Dict, prod: bool) -> (r:
        Result<String, RenderError>)
        ensures
            rendered(self@, name@, target@, context@, prod, r),
    {
        if parent_of(target).is_none() {
            return Err(RenderError::NoParent);
        }
        let mut base = Dict::new();
        base.insert("__prod".to_owned(), (if prod { "true" } else { "false" }).to_owned());
        let full = base.merge(context);
        let variables = full.to_pairs();
        if !all_readable(&variables) {
            return Err(RenderError::Value);
        }
        match engine_render(self.templates.to_pairs(), name, variables) {
            Ok(text) => Ok(text),
            Err(why) => Err(RenderError::Template(why)),
        }
    }

    /// Makes the page that goes into the file `target`: renders the
    /// template `name` with `context` laid over the base context, passes
    /// the text through `transform` unless `antidote` switches that off, and
    /// decides what is written. The first step that fails ends it.
    pub fn render<F: FnOnce(String) -> Result<String, String>>(
        &self,
        name: &String,
        target: &[u8],
        context: &Dict,
        prod: bool,
        antidote: bool,
        transform: F,
    ) -> (r: Result<Written, RenderError>)
        requires
            !antidote ==> forall|page: String| transform.requires((page,)),
        ensures
            produced(self@, name@, target@, context@, prod, antidote, transform, r),
    {
        let text = match self.render_text(name, target, context, prod) {
            Ok(text) => text,
            Err(why) => {
                return Err(why);
            },
        };
        match crate::poison::inject(text, antidote, transform) {
            Ok(page) => Ok(finish(target, page, prod)),
            Err(why) => Err(RenderError::Transform(why)),
        }
    }
}

/// Decides what is written to `target` for the page `text`.
pub fn finish(target: &[u8], text: String, prod: bool) -> (r: Written)
    ensures
        r@ == finished(target@, text@, prod),
{
    let html: [u8; 4] = [104, 116, 109, 108];
    assert(html@ =~= html_ext());
    let bytes = text.as_str().as_bytes_vec();
    if has_extension(target, html.as_slice()) {
        crate::minify::write(Type::Html, bytes, prod)
    } else {
        Written { bytes, error: None }
    }
}

} // verus!
