//! Which service answers a request: the tailwind stylesheet, a template,
//! a static file, or none.
use vstd::prelude::*;

use crate::config::{opt_text, ConfigInner, ConfigView};
use crate::scripts::{entry_texts, last_file_for, Scripts};
use crate::templates::Templates;
use crate::uri::{uri_equals_str, uri_parses, uri_path_of, uri_text_of, Uri};

verus! {

/// A template name is hidden where one of its `/`-separated parts starts with `_`.
pub open spec fn is_hidden_name(n: Seq<char>) -> bool {
    ||| (n.len() > 0 && n[0] == '_')
    ||| exists|i: int| 0 <= i < n.len() - 1 && #[trigger] n[i] == '/' && n[i + 1] == '_'
}

/// Whether the template name `n` is hidden from requests.
pub fn is_hidden_template(n: &str) -> (r: bool)
    ensures
        r == is_hidden_name(n@),
{
    let cs = crate::text::chars_of(n);
    if cs.len() > 0 && cs[0] == '_' {
        return true;
    }
    let mut i: usize = 0;
    while i < cs.len()
        invariant
            i <= cs@.len(),
            cs@ == n@,
            !(cs@.len() > 0 && cs@[0] == '_'),
            forall|k: int| 0 <= k < i && k < cs@.len() - 1 ==> !(#[trigger] cs@[k] == '/' && cs@[k
                + 1] == '_'),
        decreases cs.len() - i,
    {
        if i + 1 < cs.len() && cs[i] == '/' && cs[i + 1] == '_' {
            return true;
        }
        i = i + 1;
    }
    false
}

/// The service a request is routed to.
pub enum Route {
    /// The tailwind stylesheet.
    Tailwind,
    /// The template of this name, rendered with the output of the script
    /// file given, where a script is found for the request.
    Template { name: String, script: Option<String> },
    /// The static file at this URI, below the files path.
    Asset(Uri),
    /// Nothing: `404 Not Found`.
    NotFound,
}

/// The abstract value of a [`Route`].
pub enum RouteView {
    Tailwind,
    Template(Seq<char>, Option<Seq<char>>),
    Asset(Seq<char>),
    NotFound,
}

impl View for Route {
    type V = RouteView;

    open spec fn view(&self) -> RouteView {
        match self {
            Route::Tailwind => RouteView::Tailwind,
            Route::Template { name, script } => RouteView::Template(name@, opt_text(*script)),
            Route::Asset(u) => RouteView::Asset(u@),
            Route::NotFound => RouteView::NotFound,
        }
    }
}

/// The script file a request for `uri` runs: the one found last under the
/// script name the request asks for, if any.
pub open spec fn script_for(
    c: ConfigView,
    scripts: Seq<(Seq<char>, Seq<char>)>,
    uri: Seq<char>,
) -> Option<Seq<char>> {
    match c.script_name_for(uri_path_of(uri)) {
        Some(n) => last_file_for(scripts, n),
        None => None,
    }
}

/// Where a request for `uri` goes, under the configuration `c` with the
/// templates `templates` and the scripts `scripts` loaded: to the stylesheet
/// where the URI is the tailwind endpoint and tailwind is on; else to the
/// template it names, where that is loaded and not hidden, with the script
/// it names; else to the static file it names, where it names one; else
/// nowhere.
pub open spec fn route_for(
    c: ConfigView,
    templates: Map<Seq<char>, Seq<char>>,
    scripts: Seq<(Seq<char>, Seq<char>)>,
    uri: Seq<char>,
) -> RouteView {
    if uri_equals_str(uri, c.tailwind_endpoint) && c.tailwind.enable {
        RouteView::Tailwind
    } else if c.template_name_for(uri_path_of(uri)) matches Some(n) && templates.contains_key(n)
        && !is_hidden_name(n) {
        RouteView::Template(
            c.template_name_for(uri_path_of(uri))->0,
            script_for(c, scripts, uri),
        )
    } else if c.files_uri_text_for(uri_text_of(uri)) matches Some(a) && uri_parses(a) {
        RouteView::Asset(c.files_uri_text_for(uri_text_of(uri))->0)
    } else {
        RouteView::NotFound
    }
}

/// Routes a request for `uri`.
pub fn route_request(config: &ConfigInner, templates: &Templates, scripts: &Scripts, uri: &Uri) -> (r:
    Route)
    ensures
        r@ == route_for(config@, templates@, scripts@, uri@),
{
    if uri.equals_str(config.get_tailwind_endpoint()) && config.get_tailwind_enable() {
        return Route::Tailwind;
    }
    match config.get_template_name(uri) {
        Some(name) => {
            if templates.has_template(name.as_str()) && !is_hidden_template(name.as_str()) {
                let script = match config.get_script_name(uri) {
                    Some(script_name) => scripts.find(script_name.as_str()),
                    None => None,
                };
                return Route::Template { name, script };
            }
        },
        None => {},
    }
    match config.get_files_uri(uri) {
        Some(asset) => Route::Asset(asset),
        None => Route::NotFound,
    }
}

/// The name under which templates see the tailwind endpoint.
pub open spec fn tailwind_href_name() -> Seq<char> {
    seq!['t', 'a', 'i', 'l', 'w', 'i', 'n', 'd', '_', 'h', 'r', 'e', 'f']
}

/// The name under which templates see a script's output as text.
pub open spec fn stdout_name() -> Seq<char> {
    seq!['s', 't', 'd', 'o', 'u', 't']
}

/// The name under which templates see a script's output read as TOML.
pub open spec fn script_name() -> Seq<char> {
    seq!['s', 'c', 'r', 'i', 'p', 't']
}

/// The variables a page is rendered with, as (strings, TOML documents):
/// `tailwind_href`, the tailwind endpoint, and, where a script ran, its
/// output as `stdout`; each included TOML file under its name and, where a
/// script ran, its output as the document `script`.
pub fn page_vars(
    config: &ConfigInner,
    includes: &Vec<(String, String)>,
    script_output: Option<&str>,
) -> (r: (Vec<(String, String)>, Vec<(String, String)>))
    ensures
        r.0@.len() == (if script_output is Some { 2int } else { 1int }),
        r.0@[0].0@ == tailwind_href_name(),
        r.0@[0].1@ == config@.tailwind_endpoint,
        script_output matches Some(out) ==> r.0@[1].0@ == stdout_name() && r.0@[1].1@ == out@,
        entry_texts(r.1@) == entry_texts(includes@) + match script_output {
            Some(out) => seq![(script_name(), out@)],
            None => Seq::empty(),
        },
{
    proof {
        reveal_strlit("tailwind_href");
        reveal_strlit("stdout");
        reveal_strlit("script");
    }
    let key = crate::text::copy_str("tailwind_href");
    let value = match config.get_value(key.as_str()) {
        Some(v) => v,
        None => String::new(),
    };
    let mut texts: Vec<(String, String)> = Vec::new();
    texts.push((key, value));
    let mut tomls: Vec<(String, String)> = Vec::new();
    let mut i: usize = 0;
    while i < includes.len()
        invariant
            i <= includes@.len(),
            entry_texts(tomls@) == entry_texts(includes@.take(i as int)),
        decreases includes.len() - i,
    {
        let pair = (
            crate::text::copy_str(includes[i].0.as_str()),
            crate::text::copy_str(includes[i].1.as_str()),
        );
        let ghost prev = tomls@;
        tomls.push(pair);
        assert(entry_texts(tomls@) =~= entry_texts(prev).push((includes@[i as int].0@, includes@[
            i as int
        ].1@)));
        assert(entry_texts(includes@.take(i + 1)) =~= entry_texts(includes@.take(i as int)).push(
            (includes@[i as int].0@, includes@[i as int].1@),
        ));
        i = i + 1;
    }
    assert(includes@.take(includes@.len() as int) =~= includes@);
    match script_output {
        Some(out) => {
            texts.push((crate::text::copy_str("stdout"), crate::text::copy_str(out)));
            let ghost before = tomls@;
            let entry = (crate::text::copy_str("script"), crate::text::copy_str(out));
            tomls.push(entry);
            assert(entry_texts(tomls@) =~= entry_texts(before).push((entry.0@, entry.1@)));
            assert("script"@ =~= script_name());
            assert(entry_texts(tomls@) =~= entry_texts(includes@) + seq![(script_name(), out@)]);
        },
        None => {
            assert(entry_texts(includes@) + Seq::empty() =~= entry_texts(includes@));
        },
    }
    (texts, tomls)
}

/// A hidden template is never served, whatever is requested.
pub proof fn lemma_hidden_templates_not_served(
    c: ConfigView,
    templates: Map<Seq<char>, Seq<char>>,
    scripts: Seq<(Seq<char>, Seq<char>)>,
    uri: Seq<char>,
)
    ensures
        route_for(c, templates, scripts, uri) matches RouteView::Template(n, _) ==> !is_hidden_name(
            n,
        ) && templates.contains_key(n),
{
}

/// Templates come before static files: a request that is not for the
/// tailwind stylesheet and names a loaded template that is not hidden goes to
/// that template, with the script file found last under the script name the
/// request asks for, whatever static file it might also name.
pub proof fn lemma_named_templates_are_served(
    c: ConfigView,
    templates: Map<Seq<char>, Seq<char>>,
    scripts: Seq<(Seq<char>, Seq<char>)>,
    uri: Seq<char>,
    n: Seq<char>,
)
    requires
        !(uri_equals_str(uri, c.tailwind_endpoint) && c.tailwind.enable),
        c.template_name_for(uri_path_of(uri)) == Some(n),
        templates.contains_key(n),
        !is_hidden_name(n),
    ensures
        route_for(c, templates, scripts, uri) == RouteView::Template(
            n,
            match c.script_name_for(uri_path_of(uri)) {
                Some(s) => last_file_for(scripts, s),
                None => None,
            },
        ),
{
}

/// Each answer to a request, and when it is given: the stylesheet exactly for
/// the tailwind endpoint while tailwind is on; a template only where the
/// request names it and it is loaded and not hidden; a static file only where
/// no such template is named, and then the one the request names below the
/// files endpoint; `404` only where none of these applies.
pub proof fn lemma_route_cases(
    c: ConfigView,
    templates: Map<Seq<char>, Seq<char>>,
    scripts: Seq<(Seq<char>, Seq<char>)>,
    uri: Seq<char>,
)
    ensures
        route_for(c, templates, scripts, uri) is Tailwind <==> (uri_equals_str(
            uri,
            c.tailwind_endpoint,
        ) && c.tailwind.enable),
        route_for(c, templates, scripts, uri) matches RouteView::Template(n, _) ==> c.template_name_for(
            uri_path_of(uri),
        ) == Some(n) && templates.contains_key(n) && !is_hidden_name(n),
        route_for(c, templates, scripts, uri) matches RouteView::Asset(a) ==> {
            &&& !(uri_equals_str(uri, c.tailwind_endpoint) && c.tailwind.enable)
            &&& !(c.template_name_for(uri_path_of(uri)) matches Some(n) && templates.contains_key(n)
                && !is_hidden_name(n))
            &&& c.files_uri_text_for(uri_text_of(uri)) == Some(a)
            &&& uri_parses(a)
        },
        route_for(c, templates, scripts, uri) is NotFound <==> {
            &&& !(uri_equals_str(uri, c.tailwind_endpoint) && c.tailwind.enable)
            &&& !(c.template_name_for(uri_path_of(uri)) matches Some(n) && templates.contains_key(n)
                && !is_hidden_name(n))
            &&& !(c.files_uri_text_for(uri_text_of(uri)) matches Some(a) && uri_parses(a))
        },
{
}

} // verus!
