//! Templates: the names a template file is known by, and the `minijinja`
//! environment that holds and renders them.
use std::collections::BTreeMap;

use vstd::prelude::*;

use crate::config::{opt_text, texts};
use crate::text::{copy_str, push_char, strip_suffix, without_suffix};

verus! {

#[verifier::external_type_specification]
#[verifier::external_body]
pub struct ExEnvironment<'a>(minijinja::Environment<'a>);

/// A `minijinja` environment that owns its templates.
pub type JinjaEnv = minijinja::Environment<'static>;

/// The templates an environment made by `minijinja::Environment::new` holds:
/// each name with the source it was added under.
pub uninterp spec fn env_templates(env: JinjaEnv) -> Map<
    Seq<char>,
    Seq<char>,
>;

/// Whether `minijinja` compiles the template `source` added under `name`
/// (`Environment::add_template_owned` returns `Ok`).
pub uninterp spec fn template_compiles(name: Seq<char>, source: Seq<char>) -> bool;

/// What rendering the template `name` of an environment holding `templates`
/// gives (`Template::render`) with a context that binds each name of `texts`
/// to its string and each name of `documents` to the TOML document
/// `toml::from_str` reads from the source stored under it; `None` where
/// there is no such template or rendering fails.
pub uninterp spec fn rendered(
    templates: Map<Seq<char>, Seq<char>>,
    name: Seq<char>,
    texts: Map<Seq<char>, Seq<char>>,
    documents: Map<Seq<char>, Seq<char>>,
) -> Option<Seq<char>>;

/// No templates at all.
pub open spec fn no_templates() -> Map<Seq<char>, Seq<char>> {
    Map::empty()
}

/// `minijinja::Environment::new()`: an environment with no templates.
#[verifier::external_body]
fn new_environment() -> (r: JinjaEnv)
    ensures
        env_templates(r) == no_templates(),
{
    minijinja::Environment::new()
}

/// `Environment::add_template_owned(name, source)`, reporting whether it
/// succeeded; the contract claims that success is the named
/// `template_compiles`, that success stores the source under the name and
/// that failure leaves the templates as they were.
#[verifier::external_body]
fn env_add_template(env: &mut JinjaEnv, name: String, source: String) -> (ok:
    bool)
    ensures
        ok == template_compiles(name@, source@),
        ok ==> env_templates(*final(env)) == env_templates(*old(env)).insert(name@, source@),
        !ok ==> env_templates(*final(env)) == env_templates(*old(env)),
{
    env.add_template_owned(name, source).is_ok()
}

/// `Environment::get_template(name)`, reporting whether it succeeded; the
/// contract claims it succeeds exactly for the names the environment holds
/// (it has no loader).
#[verifier::external_body]
fn env_has_template(env: &JinjaEnv, name: &str) -> (r: bool)
    ensures
        r == env_templates(*env).contains_key(name@),
{
    env.get_template(name).is_ok()
}

/// `Environment::get_template(name)` and `Template::render`, with either
/// error turned into `None`. Each entry of the context is turned into a
/// `minijinja` value as it is (a string, or a document with
/// `Value::from_serialize`); the context holds no name twice. The contract
/// claims the result is the named `rendered`.
#[verifier::external_body]
fn env_render(env: &JinjaEnv, name: &str, context: &TemplateContext) -> (r: Option<String>)
    requires
        context.wf(),
    ensures
        opt_text(r) == rendered(
            env_templates(*env),
            name@,
            entry_map(context.texts@),
            entry_map(context.documents@),
        ),
{
    let texts = context.texts.iter().map(|(k, v)| (k.as_str(), minijinja::Value::from(v.as_str())));
    let documents = context.documents.iter().map(
        |(k, d)| (k.as_str(), minijinja::Value::from_serialize(&d.value)),
    );
    let values: BTreeMap<&str, minijinja::Value> = texts.chain(documents).collect();
    match env.get_template(name) {
        Ok(template) => template.render(values).ok(),
        Err(_) => None,
    }
}

#[verifier::external_type_specification]
#[verifier::external_body]
pub struct ExTomlValue(toml::Value);

/// Whether `toml::from_str::<toml::Value>` reads `source` (returns `Ok`).
pub uninterp spec fn toml_parses(source: Seq<char>) -> bool;

/// A TOML document, kept with the source text it was read from.
pub struct TomlDocument {
    source: String,
    value: toml::Value,
}

impl View for TomlDocument {
    type V = Seq<char>;

    closed spec fn view(&self) -> Seq<char> {
        self.source@
    }
}

impl TomlDocument {
    /// The source text the document was read from.
    pub fn source(&self) -> (r: &str)
        ensures
            r@ == self@,
    {
        self.source.as_str()
    }
}

/// `toml::from_str::<toml::Value>(source)`, with the source kept beside the
/// document; `None` for an error. The contract claims that it succeeds
/// exactly where the named `toml_parses` holds.
#[verifier::external_body]
fn parse_toml(source: String) -> (r: Option<TomlDocument>)
    ensures
        r is Some <==> toml_parses(source@),
        r matches Some(d) ==> d@ == source@,
{
    match toml::from_str::<toml::Value>(&source) {
        Ok(value) => Some(TomlDocument { source, value }),
        Err(_) => None,
    }
}

/// The value bound to each name by a list of (name, value) entries: later
/// entries win over earlier ones with the same name.
pub open spec fn entry_map<V: View<V = Seq<char>>>(entries: Seq<(String, V)>) -> Map<
    Seq<char>,
    Seq<char>,
>
    decreases entries.len(),
{
    if entries.len() == 0 {
        Map::empty()
    } else {
        entry_map(entries.drop_last()).insert(entries.last().0@, entries.last().1@)
    }
}

/// No name occurs twice among `entries`.
pub open spec fn distinct_names<V>(entries: Seq<(String, V)>) -> bool {
    forall|i: int, j: int|
        #![trigger entries[i], entries[j]]
        0 <= i < j < entries.len() ==> entries[i].0@ != entries[j].0@
}

/// The variables of a context: later pairs win over earlier ones with the same name.
pub open spec fn var_map(vars: Seq<(String, String)>) -> Map<Seq<char>, Seq<char>> {
    entry_map(vars)
}

/// The TOML documents among `tomls` that `toml` reads, by name: a later one
/// wins over an earlier one of the same name, and one that cannot be read is
/// left out.
pub open spec fn document_map(tomls: Seq<(String, String)>) -> Map<Seq<char>, Seq<char>>
    decreases tomls.len(),
{
    if tomls.len() == 0 {
        Map::empty()
    } else if toml_parses(tomls.last().1@) {
        document_map(tomls.drop_last()).insert(tomls.last().0@, tomls.last().1@)
    } else {
        document_map(tomls.drop_last())
    }
}

/// The documents a template sees: those of [`document_map`] whose name no
/// string variable takes, since a string wins over a document.
pub open spec fn context_documents(
    texts: Seq<(String, String)>,
    tomls: Seq<(String, String)>,
) -> Map<Seq<char>, Seq<char>> {
    document_map(tomls).remove_keys(var_map(texts).dom())
}

/// The context a template is rendered with: string variables and TOML
/// documents.
pub struct TemplateContext {
    /// The string variables.
    pub texts: Vec<(String, String)>,
    /// The TOML documents.
    pub documents: Vec<(String, TomlDocument)>,
}

impl TemplateContext {
    /// No name occurs twice, neither within the strings or the documents nor
    /// across them.
    pub open spec fn wf(&self) -> bool {
        &&& distinct_names(self.texts@)
        &&& distinct_names(self.documents@)
        &&& forall|i: int, j: int|
            0 <= i < self.texts@.len() && 0 <= j < self.documents@.len() ==> #[trigger] self.texts@[i].0@
                != #[trigger] self.documents@[j].0@
    }
}

/// The index of the entry named `name`, if there is one.
fn find_entry<V>(entries: &Vec<(String, V)>, name: &str) -> (r: Option<usize>)
    ensures
        match r {
            Some(j) => j < entries@.len() && entries@[j as int].0@ == name@,
            None => forall|j: int| 0 <= j < entries@.len() ==> #[trigger] entries@[j].0@ != name@,
        },
{
    let mut i: usize = 0;
    while i < entries.len()
        invariant
            i <= entries@.len(),
            forall|j: int| 0 <= j < i ==> #[trigger] entries@[j].0@ != name@,
        decreases entries.len() - i,
    {
        if crate::text::same_text(entries[i].0.as_str(), name) {
            return Some(i);
        }
        i = i + 1;
    }
    None
}

proof fn lemma_entry_map_update<V: View<V = Seq<char>>>(
    s: Seq<(String, V)>,
    j: int,
    e: (String, V),
)
    requires
        distinct_names(s),
        0 <= j < s.len(),
        s[j].0@ == e.0@,
    ensures
        entry_map(s.update(j, e)) == entry_map(s).insert(e.0@, e.1@),
        distinct_names(s.update(j, e)),
    decreases s.len(),
{
    let u = s.update(j, e);
    assert forall|a: int, b: int| 0 <= a < b < u.len() implies #[trigger] u[a].0@ != #[trigger] u[b].0@ by {
        assert(s[a].0@ != s[b].0@);
    }
    if j == s.len() - 1 {
        assert(u.drop_last() =~= s.drop_last());
        assert(entry_map(u) =~= entry_map(s).insert(e.0@, e.1@));
    } else {
        let d = s.drop_last();
        assert(u.drop_last() =~= d.update(j, e));
        assert forall|a: int, b: int| 0 <= a < b < d.len() implies #[trigger] d[a].0@ != #[trigger] d[b].0@ by {
            assert(s[a].0@ != s[b].0@);
        }
        lemma_entry_map_update(d, j, e);
        assert(s[j].0@ != s[s.len() - 1].0@);
        assert(u.last() == s.last());
        assert(entry_map(u) =~= entry_map(s).insert(e.0@, e.1@));
    }
}

proof fn lemma_entry_map_dom<V: View<V = Seq<char>>>(s: Seq<(String, V)>)
    ensures
        forall|i: int| 0 <= i < s.len() ==> entry_map(s).dom().contains(#[trigger] s[i].0@),
        forall|k: Seq<char>|
            #[trigger] entry_map(s).dom().contains(k) ==> exists|i: int| 0 <= i < s.len() && s[i].0@ == k,
    decreases s.len(),
{
    if s.len() > 0 {
        let d = s.drop_last();
        lemma_entry_map_dom(d);
        assert forall|i: int| 0 <= i < s.len() implies entry_map(s).dom().contains(#[trigger] s[i].0@) by {
            if i < s.len() - 1 {
                assert(d[i] == s[i]);
            }
        }
        assert forall|k: Seq<char>| #[trigger] entry_map(s).dom().contains(k) implies exists|i: int|
            0 <= i < s.len() && s[i].0@ == k by {
            if k == s.last().0@ {
                assert(s[s.len() - 1].0@ == k);
            } else {
                assert(entry_map(d).dom().contains(k));
                let i = choose|i: int| 0 <= i < d.len() && d[i].0@ == k;
                assert(s[i] == d[i]);
                assert(s[i].0@ == k);
            }
        }
    }
}

/// Binds `name` to `value`, in place of an entry of the same name if there is one.
fn set_entry<V: View<V = Seq<char>>>(entries: &mut Vec<(String, V)>, name: String, value: V)
    requires
        distinct_names(old(entries)@),
    ensures
        distinct_names(final(entries)@),
        entry_map(final(entries)@) == entry_map(old(entries)@).insert(name@, value@),
{
    match find_entry(entries, name.as_str()) {
        Some(j) => {
            proof {
                lemma_entry_map_update(entries@, j as int, (name, value));
            }
            entries[j] = (name, value);
        },
        None => {
            let ghost before = entries@;
            entries.push((name, value));
            assert(entries@.drop_last() =~= before);
            assert forall|a: int, b: int| 0 <= a < b < entries@.len() implies #[trigger] entries@[a].0@
                != #[trigger] entries@[b].0@ by {
                if b < before.len() {
                    assert(before[a].0@ != before[b].0@);
                } else {
                    assert(before[a].0@ != name@);
                }
            }
        },
    }
}

/// The context a template is rendered with, from the string variables `texts`
/// and the TOML documents `tomls` (by name, as source text): a later variable
/// wins over an earlier one of the same name, a string wins over a document,
/// and a document `toml` cannot read is left out. No name occurs twice in it.
pub fn template_context(texts: &Vec<(String, String)>, tomls: &Vec<(String, String)>) -> (r:
    TemplateContext)
    ensures
        r.wf(),
        entry_map(r.texts@) == var_map(texts@),
        entry_map(r.documents@) == context_documents(texts@, tomls@),
{
    let mut out_texts: Vec<(String, String)> = Vec::new();
    let mut i: usize = 0;
    while i < texts.len()
        invariant
            i <= texts@.len(),
            distinct_names(out_texts@),
            entry_map(out_texts@) == entry_map(texts@.take(i as int)),
        decreases texts.len() - i,
    {
        assert(texts@.take(i + 1).drop_last() =~= texts@.take(i as int));
        assert(texts@.take(i + 1).last() == texts@[i as int]);
        let name = copy_str(texts[i].0.as_str());
        let value = copy_str(texts[i].1.as_str());
        set_entry(&mut out_texts, name, value);
        i = i + 1;
    }
    assert(texts@.take(texts@.len() as int) =~= texts@);
    let ghost taken = var_map(texts@).dom();
    proof {
        lemma_entry_map_dom(out_texts@);
    }
    let mut documents: Vec<(String, TomlDocument)> = Vec::new();
    let mut k: usize = 0;
    while k < tomls.len()
        invariant
            k <= tomls@.len(),
            taken == entry_map(out_texts@).dom(),
            forall|i: int| 0 <= i < out_texts@.len() ==> taken.contains(#[trigger] out_texts@[i].0@),
            forall|n: Seq<char>| #[trigger] taken.contains(n) ==> exists|i: int|
                0 <= i < out_texts@.len() && out_texts@[i].0@ == n,
            distinct_names(documents@),
            entry_map(documents@) == document_map(tomls@.take(k as int)).remove_keys(taken),
        decreases tomls.len() - k,
    {
        let ghost before = document_map(tomls@.take(k as int));
        assert(tomls@.take(k + 1).drop_last() =~= tomls@.take(k as int));
        assert(tomls@.take(k + 1).last() == tomls@[k as int]);
        let ghost after = document_map(tomls@.take(k + 1));
        let ghost n = tomls@[k as int].0@;
        match find_entry(&out_texts, tomls[k].0.as_str()) {
            Some(j) => {
                assert(taken.contains(out_texts@[j as int].0@));
                assert(after.remove_keys(taken) =~= before.remove_keys(taken));
            },
            None => {
                assert(!taken.contains(n));
                match parse_toml(copy_str(tomls[k].1.as_str())) {
                    Some(doc) => {
                        set_entry(&mut documents, copy_str(tomls[k].0.as_str()), doc);
                        assert(after.remove_keys(taken) =~= before.remove_keys(taken).insert(
                            n,
                            tomls@[k as int].1@,
                        ));
                    },
                    None => {
                        assert(after =~= before);
                    },
                }
            },
        }
        k = k + 1;
    }
    assert(tomls@.take(tomls@.len() as int) =~= tomls@);
    proof {
        lemma_entry_map_dom(documents@);
    }
    let r = TemplateContext { texts: out_texts, documents };
    assert forall|i: int, j: int|
        0 <= i < r.texts@.len() && 0 <= j < r.documents@.len() implies #[trigger] r.texts@[i].0@
        != #[trigger] r.documents@[j].0@ by {
        assert(taken.contains(r.texts@[i].0@));
        assert(entry_map(r.documents@).dom().contains(r.documents@[j].0@));
    }
    r
}

/// The names stripped of those `suffixes` that `file_name` ends with, in the
/// order of the suffixes.
pub open spec fn stripped_names(file_name: Seq<char>, suffixes: Seq<Seq<char>>) -> Seq<Seq<char>>
    decreases suffixes.len(),
{
    if suffixes.len() == 0 {
        Seq::empty()
    } else {
        let before = stripped_names(file_name, suffixes.drop_last());
        match without_suffix(file_name, suffixes.last()) {
            Some(n) => before.push(n),
            None => before,
        }
    }
}

/// The names a template file at `relative` (below the templates path) is
/// known by: `/{relative}` itself, then that name stripped of each matching
/// suffix.
pub open spec fn template_names(relative: Seq<char>, suffixes: Seq<Seq<char>>) -> Seq<Seq<char>> {
    seq![seq!['/'] + relative] + stripped_names(seq!['/'] + relative, suffixes)
}

/// Adding `source` under each of `names` in order, to an environment holding
/// `templates`, until one fails to compile: the templates then held, and the
/// index of the name that failed, if one did.
pub open spec fn add_until_failure(
    templates: Map<Seq<char>, Seq<char>>,
    names: Seq<Seq<char>>,
    source: Seq<char>,
) -> (Map<Seq<char>, Seq<char>>, Option<int>)
    decreases names.len(),
{
    if names.len() == 0 {
        (templates, None)
    } else {
        let (m, failed) = add_until_failure(templates, names.drop_last(), source);
        if failed is Some {
            (m, failed)
        } else if template_compiles(names.last(), source) {
            (m.insert(names.last(), source), None)
        } else {
            (m, Some(names.len() - 1))
        }
    }
}

/// The names under which a template is looked up for a request path by
/// [`Templates::find_template`]: the path as it is, then with `.html`,
/// `index.html` and `/index.html` appended.
pub open spec fn lookup_candidates(path: Seq<char>) -> Seq<Seq<char>> {
    seq![
        path,
        path + seq!['.', 'h', 't', 'm', 'l'],
        path + seq!['i', 'n', 'd', 'e', 'x', '.', 'h', 't', 'm', 'l'],
        path + seq!['/', 'i', 'n', 'd', 'e', 'x', '.', 'h', 't', 'm', 'l']
    ]
}

/// The first of `candidates` that `templates` holds.
pub open spec fn first_held(templates: Map<Seq<char>, Seq<char>>, candidates: Seq<Seq<char>>) -> Option<
    Seq<char>,
>
    decreases candidates.len(),
{
    if candidates.len() == 0 {
        None
    } else if templates.contains_key(candidates[0]) {
        Some(candidates[0])
    } else {
        first_held(templates, candidates.drop_first())
    }
}

/// The names a template file at `relative` (below the templates path) is
/// known by, where at least one of `suffixes` matches its name: `/{relative}`,
/// then that name stripped of each matching suffix. `None` where no suffix
/// matches: such a file is no template.
pub fn names_for_file(relative: &str, suffixes: &Vec<String>) -> (r: Option<Vec<String>>)
    ensures
        match r {
            Some(names) => texts(names@) == template_names(relative@, texts(suffixes@))
                && texts(names@).len() > 1,
            None => template_names(relative@, texts(suffixes@)).len() <= 1,
        },
{
    let mut file_name = String::new();
    push_char(&mut file_name, '/');
    file_name.append(relative);
    let mut names: Vec<String> = Vec::new();
    names.push(copy_str(file_name.as_str()));
    let ghost sfx = texts(suffixes@);
    let mut i: usize = 0;
    while i < suffixes.len()
        invariant
            i <= suffixes@.len(),
            sfx == texts(suffixes@),
            file_name@ == seq!['/'] + relative@,
            texts(names@) == seq![file_name@] + stripped_names(file_name@, sfx.take(i as int)),
        decreases suffixes.len() - i,
    {
        assert(sfx.take(i + 1).drop_last() =~= sfx.take(i as int));
        assert(sfx.take(i + 1).last() == suffixes@[i as int]@);
        let ghost prev = names@;
        match strip_suffix(file_name.as_str(), suffixes[i].as_str()) {
            Some(n) => {
                names.push(n);
                assert(texts(names@) =~= texts(prev).push(n@));
            },
            None => {},
        }
        i = i + 1;
    }
    assert(sfx.take(sfx.len() as int) =~= sfx);
    if names.len() <= 1 {
        None
    } else {
        Some(names)
    }
}

/// The variable under which a file of the include directory named
/// `file_name` reaches templates: the name without its `.toml` suffix, where
/// it has one and something is left.
pub open spec fn include_var_name(file_name: Seq<char>) -> Option<Seq<char>> {
    match without_suffix(file_name, seq!['.', 't', 'o', 'm', 'l']) {
        Some(stem) => if stem.len() > 0 {
            Some(stem)
        } else {
            None
        },
        None => None,
    }
}

/// The variable under which the include file named `file_name` reaches
/// templates; `None` for a file that is no TOML file.
pub fn include_name(file_name: &str) -> (r: Option<String>)
    ensures
        opt_text(r) == include_var_name(file_name@),
{
    proof {
        reveal_strlit(".toml");
        assert(".toml"@ =~= seq!['.', 't', 'o', 'm', 'l']);
    }
    match strip_suffix(file_name, ".toml") {
        Some(stem) => {
            let cs = crate::text::chars_of(stem.as_str());
            if cs.len() > 0 {
                Some(stem)
            } else {
                None
            }
        },
        None => None,
    }
}

/// A page rendered from a template, or the failure to find it.
pub enum TemplatePage {
    /// `200 OK` with the rendered HTML.
    Html(String),
    /// `500 Internal Server Error`: the template is gone.
    InternalError,
}

/// The templates loaded so far.
pub struct Templates {
    environment: JinjaEnv,
}

impl View for Templates {
    type V = Map<Seq<char>, Seq<char>>;

    closed spec fn view(&self) -> Map<Seq<char>, Seq<char>> {
        env_templates(self.environment)
    }
}

impl Templates {
    /// No templates yet.
    pub fn new() -> (r: Templates)
        ensures
            r@ == no_templates(),
    {
        Templates { environment: new_environment() }
    }

    /// Whether a template is loaded under `name`.
    pub fn has_template(&self, name: &str) -> (r: bool)
        ensures
            r == self@.contains_key(name@),
    {
        env_has_template(&self.environment, name)
    }

    /// Loads the template source `contents` under each of `names` in order,
    /// stopping at the first name under which it does not compile; returns the
    /// index of that name, if there is one.
    pub fn add_file(&mut self, names: &Vec<String>, contents: &str) -> (failed: Option<usize>)
        ensures
            final(self)@ == add_until_failure(old(self)@, texts(names@), contents@).0,
            match failed {
                Some(k) => add_until_failure(old(self)@, texts(names@), contents@).1 == Some(
                    k as int,
                ),
                None => add_until_failure(old(self)@, texts(names@), contents@).1 is None,
            },
    {
        let ghost start = self@;
        let ghost ns = texts(names@);
        let mut i: usize = 0;
        while i < names.len()
            invariant
                i <= names@.len(),
                ns == texts(names@),
                start == old(self)@,
                add_until_failure(start, ns.take(i as int), contents@) == (self@, None::<int>),
            decreases names.len() - i,
        {
            assert(ns.take(i + 1).drop_last() =~= ns.take(i as int));
            assert(ns.take(i + 1).last() == names@[i as int]@);
            let ghost before = self@;
            let ok = env_add_template(
                &mut self.environment,
                copy_str(names[i].as_str()),
                copy_str(contents),
            );
            if !ok {
                proof {
                    assert(self@ == before);
                    assert(add_until_failure(start, ns.take(i + 1), contents@) == (
                        self@,
                        Some(i as int),
                    ));
                    lemma_failure_sticks(start, ns, contents@, i as int + 1);
                }
                return Some(i);
            }
            i = i + 1;
        }
        assert(ns.take(ns.len() as int) =~= ns);
        None
    }

    /// Renders the template `name` with the string variables `texts` and the
    /// TOML documents `tomls`, put together by [`template_context`]; the
    /// internal error page where it is not loaded.
    pub fn render_template(
        &self,
        name: &str,
        texts: &Vec<(String, String)>,
        tomls: &Vec<(String, String)>,
    ) -> (r: TemplatePage)
        requires
            self@.contains_key(name@) ==> rendered(
                self@,
                name@,
                var_map(texts@),
                context_documents(texts@, tomls@),
            ) is Some,
        ensures
            self@.contains_key(name@) ==> (r matches TemplatePage::Html(html) && Some(html@)
                == rendered(self@, name@, var_map(texts@), context_documents(texts@, tomls@))),
            !self@.contains_key(name@) ==> r is InternalError,
    {
        if env_has_template(&self.environment, name) {
            let context = template_context(texts, tomls);
            match env_render(&self.environment, name, &context) {
                Some(html) => TemplatePage::Html(html),
                None => TemplatePage::InternalError,
            }
        } else {
            TemplatePage::InternalError
        }
    }

    /// Renders the template `name` as [`Templates::render_template`] does,
    /// where rendering succeeds or the template is not loaded; `None` where
    /// the template is loaded but fails to render.
    pub fn try_render_template(
        &self,
        name: &str,
        texts: &Vec<(String, String)>,
        tomls: &Vec<(String, String)>,
    ) -> (r: Option<TemplatePage>)
        ensures
            r is None <==> (self@.contains_key(name@) && rendered(
                self@,
                name@,
                var_map(texts@),
                context_documents(texts@, tomls@),
            ) is None),
            r matches Some(page) ==> {
                &&& self@.contains_key(name@) ==> (page matches TemplatePage::Html(html) && Some(
                    html@,
                ) == rendered(self@, name@, var_map(texts@), context_documents(texts@, tomls@)))
                &&& !self@.contains_key(name@) ==> page is InternalError
            },
    {
        if env_has_template(&self.environment, name) {
            let context = template_context(texts, tomls);
            if env_render(&self.environment, name, &context).is_none() {
                return None;
            }
        }
        Some(self.render_template(name, texts, tomls))
    }

    /// The template loaded under the first of `path`, `path.html`,
    /// `pathindex.html` and `path/index.html` that is loaded, if any.
    pub fn find_template(&self, path: &str) -> (r: Option<String>)
        ensures
            opt_text(r) == first_held(self@, lookup_candidates(path@)),
    {
        proof {
            reveal_strlit(".html");
            reveal_strlit("index.html");
            reveal_strlit("/index.html");
            assert(".html"@ =~= seq!['.', 'h', 't', 'm', 'l']);
            assert("index.html"@ =~= seq!['i', 'n', 'd', 'e', 'x', '.', 'h', 't', 'm', 'l']);
            assert("/index.html"@ =~= seq!['/', 'i', 'n', 'd', 'e', 'x', '.', 'h', 't', 'm', 'l']);
        }
        let ghost cands = lookup_candidates(path@);
        proof {
            reveal_with_fuel(first_held, 5);
        }
        let c0 = copy_str(path);
        let mut c1 = copy_str(path);
        c1.append(".html");
        let mut c2 = copy_str(path);
        c2.append("index.html");
        let mut c3 = copy_str(path);
        c3.append("/index.html");
        assert(cands.drop_first()[0] == c1@);
        assert(cands.drop_first().drop_first()[0] == c2@);
        assert(cands.drop_first().drop_first().drop_first()[0] == c3@);
        assert(cands.drop_first().drop_first().drop_first().drop_first() =~= Seq::<Seq<char>>::empty());
        if self.has_template(c0.as_str()) {
            Some(c0)
        } else if self.has_template(c1.as_str()) {
            Some(c1)
        } else if self.has_template(c2.as_str()) {
            Some(c2)
        } else if self.has_template(c3.as_str()) {
            Some(c3)
        } else {
            None
        }
    }
}

proof fn lemma_failure_sticks(
    start: Map<Seq<char>, Seq<char>>,
    ns: Seq<Seq<char>>,
    source: Seq<char>,
    k: int,
)
    requires
        0 < k <= ns.len(),
        add_until_failure(start, ns.take(k), source).1 is Some,
    ensures
        add_until_failure(start, ns, source) == add_until_failure(start, ns.take(k), source),
    decreases ns.len() - k,
{
    if k < ns.len() {
        assert(ns.take(k + 1).drop_last() =~= ns.take(k));
        lemma_failure_sticks(start, ns, source, k + 1);
    } else {
        assert(ns.take(k) =~= ns);
    }
}

impl Default for Templates {
    fn default() -> (r: Templates)
        ensures
            r@ == no_templates(),
    {
        Templates::new()
    }
}

} // verus!
