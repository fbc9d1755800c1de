//! The server's configuration: where templates, scripts and files live, the
//! endpoints they are served at, and the tailwind settings.
use vstd::prelude::*;

use crate::endpoint::{
    is_normal_endpoint, lemma_collapse_fixes, lemma_normalize_endpoint_trailing_slash,
    lemma_normalized_endpoint_shape, lemma_same_segments_same_normal_form, no_double_slash,
    normalize_endpoint, normalized_endpoint, path_segments,
};
use crate::text::{
    chars_of, copy_str, has_prefix, same_text, string_of, strip_prefix, without_prefix,
};
use crate::uri::{uri_parses, uri_path_of, uri_text_of, Uri};

verus! {

/// The text view of an optional string.
pub open spec fn opt_text(o: Option<String>) -> Option<Seq<char>> {
    match o {
        Some(s) => Some(s@),
        None => None,
    }
}

/// The text view of a list of strings.
pub open spec fn texts(v: Seq<String>) -> Seq<Seq<char>> {
    v.map_values(|s: String| s@)
}

/// `s` without its last character, where it has one (what `Chars::next_back`
/// leaves of a string).
pub open spec fn without_last_char(s: Seq<char>) -> Seq<char> {
    if s.len() > 0 {
        s.drop_last()
    } else {
        s
    }
}

/// The name a request for `path` asks for under `endpoint`: the normalized
/// path with the endpoint taken off its front, and its trailing `/` moved to
/// the front.
pub open spec fn name_under(endpoint: Seq<char>, path: Seq<char>) -> Option<Seq<char>> {
    match without_prefix(normalized_endpoint(path), endpoint) {
        Some(rest) => Some(
            if rest.len() > 0 {
                seq!['/'] + rest.drop_last()
            } else {
                rest
            },
        ),
        None => None,
    }
}

/// The name a request for `uri` asks for under `endpoint`.
fn name_under_endpoint(endpoint: &str, uri: &Uri) -> (r: Option<String>)
    ensures
        opt_text(r) == name_under(endpoint@, uri_path_of(uri@)),
{
    let mut name = uri.path();
    normalize_endpoint(&mut name);
    match strip_prefix(name.as_str(), endpoint) {
        Some(rest) => {
            let cs = chars_of(rest.as_str());
            if cs.len() > 0 {
                let mut out = String::new();
                crate::text::push_char(&mut out, '/');
                let body = string_of(cs.as_slice(), 0, cs.len() - 1);
                out.append(body.as_str());
                assert(out@ =~= seq!['/'] + rest@.drop_last());
                Some(out)
            } else {
                Some(rest)
            }
        },
        None => None,
    }
}

/// The abstract value of a [`FileConfig`].
pub struct FileConfigView {
    pub suffixes: Seq<Seq<char>>,
    pub path: Option<Seq<char>>,
    pub endpoint: Option<Seq<char>>,
}

/// The abstract value of a [`TailwindConfig`].
pub struct TailwindConfigView {
    pub enable: bool,
    pub check_rendered: bool,
}

/// The abstract value of a [`ConfigInner`].
pub struct ConfigView {
    pub path: Seq<char>,
    pub endpoint: Seq<char>,
    pub index_word: Seq<char>,
    pub included: Option<Seq<char>>,
    pub templates: FileConfigView,
    pub scripts: FileConfigView,
    pub files: FileConfigView,
    pub tailwind: TailwindConfigView,
    pub tailwind_endpoint: Seq<char>,
}

/// The file name, under the files endpoint, at which the tailwind stylesheet is served.
pub open spec fn tailwind_file_name() -> Seq<char> {
    seq!['t', 'a', 'i', 'l', 'w', 'i', 'n', 'd', '.', 'c', 's', 's']
}

/// The suffixes under which an index file of a directory is known:
/// `/{index_word}{suffix}` for each suffix.
pub open spec fn index_suffixes(index_word: Seq<char>, suffixes: Seq<Seq<char>>) -> Seq<Seq<char>> {
    suffixes.map_values(|s: Seq<char>| seq!['/'] + index_word + s)
}

/// An optional endpoint, normalized where it is there.
pub open spec fn normalized_opt(e: Option<Seq<char>>) -> Option<Seq<char>> {
    match e {
        Some(s) => Some(normalized_endpoint(s)),
        None => None,
    }
}

impl FileConfigView {
    /// The value with its endpoint, if any, normalized.
    pub open spec fn with_normal_endpoint(self) -> FileConfigView {
        FileConfigView { endpoint: normalized_opt(self.endpoint), ..self }
    }

    /// The value with the index suffixes for `index_word` appended to its suffixes.
    pub open spec fn with_index_suffixes(self, index_word: Seq<char>) -> FileConfigView {
        FileConfigView {
            suffixes: self.suffixes + index_suffixes(index_word, self.suffixes),
            ..self
        }
    }
}

impl ConfigView {
    /// Where templates are read from.
    pub open spec fn templates_path(self) -> Seq<char> {
        match self.templates.path {
            Some(p) => p,
            None => self.path,
        }
    }

    /// Where templates are served.
    pub open spec fn templates_endpoint(self) -> Seq<char> {
        match self.templates.endpoint {
            Some(e) => e,
            None => self.endpoint,
        }
    }

    /// Where scripts are read from.
    pub open spec fn scripts_path(self) -> Seq<char> {
        match self.scripts.path {
            Some(p) => p,
            None => self.path,
        }
    }

    /// Where scripts are served.
    pub open spec fn scripts_endpoint(self) -> Seq<char> {
        match self.scripts.endpoint {
            Some(e) => e,
            None => self.endpoint,
        }
    }

    /// Where static files are read from.
    pub open spec fn files_path(self) -> Seq<char> {
        match self.files.path {
            Some(p) => p,
            None => self.path,
        }
    }

    /// Where static files are served.
    pub open spec fn files_endpoint(self) -> Seq<char> {
        match self.files.endpoint {
            Some(e) => e,
            None => self.endpoint,
        }
    }

    /// The configuration as loading leaves it: every endpoint normalized, the
    /// tailwind endpoint set under the files endpoint, and the index suffixes
    /// added for templates and scripts.
    pub open spec fn completed(self) -> ConfigView {
        let endpoints = ConfigView {
            endpoint: normalized_endpoint(self.endpoint),
            templates: self.templates.with_normal_endpoint(),
            scripts: self.scripts.with_normal_endpoint(),
            files: self.files.with_normal_endpoint(),
            ..self
        };
        ConfigView {
            tailwind_endpoint: endpoints.files_endpoint() + tailwind_file_name(),
            templates: endpoints.templates.with_index_suffixes(self.index_word),
            scripts: endpoints.scripts.with_index_suffixes(self.index_word),
            ..endpoints
        }
    }

    /// Every endpoint is in normal form.
    pub open spec fn endpoints_normal(self) -> bool {
        &&& is_normal_endpoint(self.endpoint)
        &&& is_normal_endpoint(self.templates_endpoint())
        &&& is_normal_endpoint(self.scripts_endpoint())
        &&& is_normal_endpoint(self.files_endpoint())
    }

    /// The template that a request for `path` asks for.
    pub open spec fn template_name_for(self, path: Seq<char>) -> Option<Seq<char>> {
        name_under(self.templates_endpoint(), path)
    }

    /// The script that a request for `path` asks for.
    pub open spec fn script_name_for(self, path: Seq<char>) -> Option<Seq<char>> {
        name_under(self.scripts_endpoint(), path)
    }

    /// The text of the asset URI that a request printed as `uri_text` asks
    /// for: `uri_text` without the files endpoint (less its final character)
    /// in front, where what is left is empty or starts a new path segment or
    /// the query (with `/` or `?`).
    pub open spec fn files_uri_text_for(self, uri_text: Seq<char>) -> Option<Seq<char>> {
        match without_prefix(uri_text, without_last_char(self.files_endpoint())) {
            Some(rest) => if rest.len() == 0 || rest[0] == '/' || rest[0] == '?' {
                Some(rest)
            } else {
                None
            },
            None => None,
        }
    }
}

/// Loading leaves every endpoint in normal form, and the tailwind stylesheet
/// at `tailwind.css` under the files endpoint.
pub proof fn lemma_completed_endpoints_normal(c: ConfigView)
    ensures
        c.completed().endpoints_normal(),
        c.completed().tailwind_endpoint == c.completed().files_endpoint() + tailwind_file_name(),
{
    lemma_normalized_endpoint_shape(c.endpoint);
    if let Some(e) = c.templates.endpoint {
        lemma_normalized_endpoint_shape(e);
    }
    if let Some(e) = c.scripts.endpoint {
        lemma_normalized_endpoint_shape(e);
    }
    if let Some(e) = c.files.endpoint {
        lemma_normalized_endpoint_shape(e);
    }
}

/// A request for a path, and for that path with a `/` more at its end, ask
/// for the same template.
pub proof fn lemma_trailing_slash_same_template(c: ConfigView, path: Seq<char>)
    ensures
        c.template_name_for(path.push('/')) == c.template_name_for(path),
{
    lemma_normalize_endpoint_trailing_slash(path);
}

/// Requests for two paths with the same `/`-separated segments ask for the
/// same template: repeated, leading and trailing `/` do not matter.
pub proof fn lemma_template_name_depends_on_segments(c: ConfigView, a: Seq<char>, b: Seq<char>)
    requires
        path_segments(a) == path_segments(b),
    ensures
        c.template_name_for(a) == c.template_name_for(b),
{
    lemma_same_segments_same_normal_form(a, b);
}

/// Where the templates endpoint is in normal form, a request asks either for
/// the empty name (the endpoint's index) or for a name that starts with `/`,
/// does not end with `/`, and holds no two `/` side by side.
pub proof fn lemma_template_name_shape(c: ConfigView, path: Seq<char>)
    requires
        is_normal_endpoint(c.templates_endpoint()),
    ensures
        c.template_name_for(path) matches Some(n) ==> (n.len() == 0 || (n.len() >= 2 && n[0]
            == '/' && n.last() != '/' && no_double_slash(n))),
{
    let e = c.templates_endpoint();
    let full = normalized_endpoint(path);
    lemma_normalized_endpoint_shape(path);
    if let Some(rest) = without_prefix(full, e) {
        if rest.len() > 0 {
            let k = e.len() as int;
            assert(full.take(k)[k - 1] == e[k - 1]);
            assert(full[k - 1] == '/');
            assert(rest[0] == full[k]);
            assert(rest[0] != '/');
            assert(rest.last() == full.last());
            let n = seq!['/'] + rest.drop_last();
            assert(rest.len() >= 2);
            assert(n.last() == full[full.len() - 2]);
            assert(full[full.len() - 2] != '/');
            assert forall|i: int| 0 <= i < n.len() - 1 implies !(#[trigger] n[i] == '/' && n[i
                + 1] == '/') by {
                if i == 0 {
                    assert(n[1] == rest[0]);
                } else {
                    assert(n[i] == full[k + i - 1] && n[i + 1] == full[k + i]);
                }
            }
        }
    }
}

/// Under an endpoint `e` in normal form, the path `e` (less its final `/`)
/// followed by a name that starts with `/`, does not end with `/` and holds
/// no `//` asks for exactly that name.
proof fn lemma_name_under_own_name(e: Seq<char>, n: Seq<char>)
    requires
        is_normal_endpoint(e),
        n.len() >= 2,
        n[0] == '/',
        n.last() != '/',
        no_double_slash(n),
    ensures
        name_under(e, e.drop_last() + n) == Some(n),
{
    let d = e.drop_last();
    let p = d + n;
    assert(no_double_slash(p)) by {
        assert forall|i: int| 0 <= i < p.len() - 1 implies !(#[trigger] p[i] == '/' && p[i + 1]
            == '/') by {
            if i < d.len() - 1 {
                assert(p[i] == e[i] && p[i + 1] == e[i + 1]);
            } else if i == d.len() - 1 {
                assert(p[i] == e[i]);
                assert(e[i + 1] == '/');
            } else {
                assert(p[i] == n[i - d.len()] && p[i + 1] == n[i + 1 - d.len()]);
            }
        }
    }
    lemma_collapse_fixes(p);
    if d.len() > 0 {
        assert(p[0] == e[0]);
    } else {
        assert(p[0] == n[0]);
    }
    assert(p.last() == n.last());
    let full = normalized_endpoint(p);
    assert(full == p.push('/'));
    assert(full.take(e.len() as int) =~= e) by {
        assert(e =~= d.push('/'));
    }
    let rest = full.skip(e.len() as int);
    assert(rest =~= n.skip(1).push('/'));
    assert(seq!['/'] + rest.drop_last() =~= n);
}

/// Where the templates endpoint is in normal form, the template named `n`
/// (a name as a template file gives it: starting with `/`, not ending with
/// `/`, with no two `/` side by side) is what a request for `n` under the
/// endpoint asks for.
pub proof fn lemma_template_requested_by_its_name(c: ConfigView, n: Seq<char>)
    requires
        is_normal_endpoint(c.templates_endpoint()),
        n.len() >= 2,
        n[0] == '/',
        n.last() != '/',
        no_double_slash(n),
    ensures
        c.template_name_for(c.templates_endpoint().drop_last() + n) == Some(n),
{
    lemma_name_under_own_name(c.templates_endpoint(), n);
}

/// Scripts are named below the scripts endpoint: where it is in normal form,
/// a request for the endpoint (less its final `/`) followed by a name that
/// starts with `/`, does not end with `/` and holds no `//` asks for the
/// script of exactly that name, and a request for the endpoint itself for
/// its index.
pub proof fn lemma_script_requested_by_its_name(c: ConfigView, n: Seq<char>)
    requires
        is_normal_endpoint(c.scripts_endpoint()),
        n.len() >= 2,
        n[0] == '/',
        n.last() != '/',
        no_double_slash(n),
    ensures
        c.script_name_for(c.scripts_endpoint().drop_last() + n) == Some(n),
        c.script_name_for(c.scripts_endpoint()) == Some(Seq::<char>::empty()),
{
    let e = c.scripts_endpoint();
    lemma_name_under_own_name(e, n);
    crate::endpoint::lemma_normal_endpoint_is_fixed(e);
    assert(e.take(e.len() as int) =~= e);
    assert(e.skip(e.len() as int) =~= Seq::<char>::empty());
}

/// Static files are found below the files endpoint: where it is in normal
/// form, a request printed as the endpoint (less its final `/`) followed by
/// nothing, a path starting with `/` or a query starting with `?` asks for
/// exactly that rest; and a request that does not start with the endpoint
/// (less its final `/`) asks for no static file.
pub proof fn lemma_asset_requested_by_its_path(c: ConfigView, rest: Seq<char>, other: Seq<char>)
    requires
        is_normal_endpoint(c.files_endpoint()),
        rest.len() == 0 || rest[0] == '/' || rest[0] == '?',
        !has_prefix(other, c.files_endpoint().drop_last()),
    ensures
        c.files_uri_text_for(c.files_endpoint().drop_last() + rest) == Some(rest),
        c.files_uri_text_for(other) is None,
{
    let d = c.files_endpoint().drop_last();
    let t = d + rest;
    assert(t.take(d.len() as int) =~= d);
    assert(t.skip(d.len() as int) =~= rest);
    assert(without_last_char(c.files_endpoint()) == d);
}

/// Loading keeps each section's own endpoint, normalized, and falls back to
/// the normalized main endpoint only where a section has none; it keeps
/// every path, keeps the suffixes of templates and scripts and appends, for
/// each of them, `/{index_word}` followed by it, and leaves the suffixes of
/// static files alone.
pub proof fn lemma_completed_keeps_sections(c: ConfigView)
    ensures
        c.completed().endpoint == normalized_endpoint(c.endpoint),
        c.templates.endpoint matches Some(e) ==> c.completed().templates_endpoint()
            == normalized_endpoint(e),
        c.templates.endpoint is None ==> c.completed().templates_endpoint() == normalized_endpoint(
            c.endpoint,
        ),
        c.scripts.endpoint matches Some(e) ==> c.completed().scripts_endpoint()
            == normalized_endpoint(e),
        c.scripts.endpoint is None ==> c.completed().scripts_endpoint() == normalized_endpoint(
            c.endpoint,
        ),
        c.files.endpoint matches Some(e) ==> c.completed().files_endpoint() == normalized_endpoint(
            e,
        ),
        c.files.endpoint is None ==> c.completed().files_endpoint() == normalized_endpoint(
            c.endpoint,
        ),
        c.completed().templates_path() == c.templates_path(),
        c.completed().scripts_path() == c.scripts_path(),
        c.completed().files_path() == c.files_path(),
        c.completed().files.suffixes == c.files.suffixes,
        c.completed().templates.suffixes.len() == 2 * c.templates.suffixes.len(),
        c.completed().scripts.suffixes.len() == 2 * c.scripts.suffixes.len(),
        forall|i: int|
            0 <= i < c.templates.suffixes.len() ==> {
                &&& c.completed().templates.suffixes[i] == c.templates.suffixes[i]
                &&& c.completed().templates.suffixes[c.templates.suffixes.len() + i] == seq!['/']
                    + c.index_word + #[trigger] c.templates.suffixes[i]
            },
        forall|i: int|
            0 <= i < c.scripts.suffixes.len() ==> {
                &&& c.completed().scripts.suffixes[i] == c.scripts.suffixes[i]
                &&& c.completed().scripts.suffixes[c.scripts.suffixes.len() + i] == seq!['/']
                    + c.index_word + #[trigger] c.scripts.suffixes[i]
            },
{
}

/// Where the templates endpoint is in normal form, a request for the
/// endpoint itself asks for the empty name: the endpoint's index.
pub proof fn lemma_endpoint_requests_index(c: ConfigView)
    requires
        is_normal_endpoint(c.templates_endpoint()),
    ensures
        c.template_name_for(c.templates_endpoint()) == Some(Seq::<char>::empty()),
{
    let e = c.templates_endpoint();
    crate::endpoint::lemma_normal_endpoint_is_fixed(e);
    assert(e.take(e.len() as int) =~= e);
    assert(e.skip(e.len() as int) =~= Seq::<char>::empty());
}

/// Where one kind of file (templates, scripts or static files) is found and served.
pub struct FileConfig {
    suffixes: Vec<String>,
    path: Option<String>,
    endpoint: Option<String>,
}

impl View for FileConfig {
    type V = FileConfigView;

    closed spec fn view(&self) -> FileConfigView {
        FileConfigView {
            suffixes: texts(self.suffixes@),
            path: opt_text(self.path),
            endpoint: opt_text(self.endpoint),
        }
    }
}

/// Whether the tailwind stylesheet is built and served.
pub struct TailwindConfig {
    enable: bool,
    check_rendered: bool,
}

impl View for TailwindConfig {
    type V = TailwindConfigView;

    closed spec fn view(&self) -> TailwindConfigView {
        TailwindConfigView { enable: self.enable, check_rendered: self.check_rendered }
    }
}

/// The server's configuration.
pub struct ConfigInner {
    path: String,
    endpoint: String,
    index_word: String,
    included: Option<String>,
    templates: FileConfig,
    scripts: FileConfig,
    files: FileConfig,
    tailwind: TailwindConfig,
    tailwind_endpoint: String,
}

impl View for ConfigInner {
    type V = ConfigView;

    closed spec fn view(&self) -> ConfigView {
        ConfigView {
            path: self.path@,
            endpoint: self.endpoint@,
            index_word: self.index_word@,
            included: opt_text(self.included),
            templates: self.templates@,
            scripts: self.scripts@,
            files: self.files@,
            tailwind: self.tailwind@,
            tailwind_endpoint: self.tailwind_endpoint@,
        }
    }
}

fn same_opt_text(a: &Option<String>, b: &Option<String>) -> (r: bool)
    ensures
        r == (opt_text(*a) == opt_text(*b)),
{
    match (a, b) {
        (Some(x), Some(y)) => same_text(x.as_str(), y.as_str()),
        (None, None) => true,
        _ => false,
    }
}

fn same_text_list(a: &Vec<String>, b: &Vec<String>) -> (r: bool)
    ensures
        r == (texts(a@) == texts(b@)),
{
    if a.len() != b.len() {
        assert(texts(a@).len() != texts(b@).len());
        return false;
    }
    let mut i: usize = 0;
    while i < a.len()
        invariant
            a@.len() == b@.len(),
            i <= a@.len(),
            forall|k: int| 0 <= k < i ==> a@[k]@ == b@[k]@,
        decreases a.len() - i,
    {
        if !same_text(a[i].as_str(), b[i].as_str()) {
            assert(texts(a@)[i as int] != texts(b@)[i as int]);
            return false;
        }
        i = i + 1;
    }
    assert(texts(a@) =~= texts(b@));
    true
}

/// `list` followed by `/{index_word}{suffix}` for each of its suffixes.
fn with_index_suffixes(list: &Vec<String>, index_word: &str) -> (r: Vec<String>)
    ensures
        texts(r@) == texts(list@) + index_suffixes(index_word@, texts(list@)),
{
    let mut out: Vec<String> = Vec::new();
    let mut i: usize = 0;
    while i < list.len()
        invariant
            i <= list@.len(),
            texts(out@) == texts(list@.take(i as int)),
        decreases list.len() - i,
    {
        let ghost prev = out@;
        let c = copy_str(list[i].as_str());
        out.push(c);
        assert(texts(out@) =~= texts(prev).push(c@));
        assert(texts(list@.take(i + 1)) =~= texts(list@.take(i as int)).push(list@[i as int]@));
        i = i + 1;
    }
    assert(list@.take(list@.len() as int) =~= list@);
    let mut j: usize = 0;
    while j < list.len()
        invariant
            j <= list@.len(),
            texts(out@) == texts(list@) + index_suffixes(index_word@, texts(list@.take(j as int))),
        decreases list.len() - j,
    {
        let mut name = String::new();
        crate::text::push_char(&mut name, '/');
        name.append(index_word);
        name.append(list[j].as_str());
        let ghost prev = out@;
        out.push(name);
        assert(texts(out@) =~= texts(prev).push(name@));
        assert(texts(list@.take(j + 1)) =~= texts(list@.take(j as int)).push(list@[j as int]@));
        assert(index_suffixes(index_word@, texts(list@.take(j + 1))) =~= index_suffixes(
            index_word@,
            texts(list@.take(j as int)),
        ).push(seq!['/'] + index_word@ + list@[j as int]@));
        j = j + 1;
    }
    assert(list@.take(list@.len() as int) =~= list@);
    out
}

impl FileConfig {
    /// A file configuration with the given suffixes, path and endpoint.
    pub fn new(suffixes: Vec<String>, path: Option<String>, endpoint: Option<String>) -> (r:
        FileConfig)
        ensures
            r@ == (FileConfigView {
                suffixes: texts(suffixes@),
                path: opt_text(path),
                endpoint: opt_text(endpoint),
            }),
    {
        FileConfig { suffixes, path, endpoint }
    }

    fn same_as(&self, other: &FileConfig) -> (r: bool)
        ensures
            r == (self@ == other@),
    {
        same_text_list(&self.suffixes, &other.suffixes) && same_opt_text(&self.path, &other.path)
            && same_opt_text(&self.endpoint, &other.endpoint)
    }
}

impl Default for FileConfig {
    fn default() -> (r: FileConfig)
        ensures
            r@ == (FileConfigView { suffixes: Seq::empty(), path: None, endpoint: None }),
    {
        let r = FileConfig { suffixes: Vec::new(), path: None, endpoint: None };
        assert(texts(r.suffixes@) =~= Seq::<Seq<char>>::empty());
        r
    }
}

impl TailwindConfig {
    /// Tailwind settings with the given flags.
    pub fn new(enable: bool, check_rendered: bool) -> (r: TailwindConfig)
        ensures
            r@ == (TailwindConfigView { enable, check_rendered }),
    {
        TailwindConfig { enable, check_rendered }
    }

    /// Tailwind is on unless the configuration says otherwise.
    pub fn default_enable() -> (r: bool)
        ensures
            r,
    {
        true
    }

    /// Rendered output is searched for classes unless the configuration says otherwise.
    pub fn default_check_rendered() -> (r: bool)
        ensures
            r,
    {
        true
    }
}

impl Default for TailwindConfig {
    fn default() -> (r: TailwindConfig)
        ensures
            r@ == (TailwindConfigView { enable: true, check_rendered: true }),
    {
        TailwindConfig {
            enable: TailwindConfig::default_enable(),
            check_rendered: TailwindConfig::default_check_rendered(),
        }
    }
}

impl ConfigInner {
    /// A configuration as read from a file, before the loading rules are applied;
    /// its tailwind endpoint is empty.
    pub fn new(
        path: String,
        endpoint: String,
        index_word: String,
        included: Option<String>,
        templates: FileConfig,
        scripts: FileConfig,
        files: FileConfig,
        tailwind: TailwindConfig,
    ) -> (r: ConfigInner)
        ensures
            r@ == (ConfigView {
                path: path@,
                endpoint: endpoint@,
                index_word: index_word@,
                included: opt_text(included),
                templates: templates@,
                scripts: scripts@,
                files: files@,
                tailwind: tailwind@,
                tailwind_endpoint: Seq::empty(),
            }),
    {
        ConfigInner {
            path,
            endpoint,
            index_word,
            included,
            templates,
            scripts,
            files,
            tailwind,
            tailwind_endpoint: String::new(),
        }
    }

    /// The word that marks a directory's index file: `index`.
    pub fn default_index_word() -> (r: String)
        ensures
            r@ == seq!['i', 'n', 'd', 'e', 'x'],
    {
        let mut r = String::new();
        crate::text::push_char(&mut r, 'i');
        crate::text::push_char(&mut r, 'n');
        crate::text::push_char(&mut r, 'd');
        crate::text::push_char(&mut r, 'e');
        crate::text::push_char(&mut r, 'x');
        r
    }

    /// The directory files are read from by default: `.`.
    pub fn default_path() -> (r: String)
        ensures
            r@ == seq!['.'],
    {
        let mut r = String::new();
        crate::text::push_char(&mut r, '.');
        r
    }

    /// The endpoint everything is served at by default: `/`.
    pub fn default_endpoint() -> (r: String)
        ensures
            r@ == seq!['/'],
    {
        let mut r = String::new();
        crate::text::push_char(&mut r, '/');
        r
    }

    /// Puts `endpoint` in the normal form of an endpoint.
    pub fn validate_endpoint(endpoint: &mut String)
        ensures
            final(endpoint)@ == normalized_endpoint(old(endpoint)@),
    {
        normalize_endpoint(endpoint);
    }

    /// Puts an optional endpoint in normal form, where it is there.
    pub fn validate_endpoint_o(endpoint: &mut Option<String>)
        ensures
            opt_text(*final(endpoint)) == normalized_opt(opt_text(*old(endpoint))),
    {
        match endpoint {
            Some(e) => {
                Self::validate_endpoint(e);
            },
            None => {},
        }
    }

    /// Applies the rules that loading a configuration follows once it is read:
    /// every endpoint is normalized, the tailwind stylesheet is placed under
    /// the files endpoint, and each template and script suffix also gets its
    /// `/{index_word}{suffix}` form.
    pub fn complete(&mut self)
        ensures
            final(self)@ == old(self)@.completed(),
    {
        Self::validate_endpoint(&mut self.endpoint);
        Self::validate_endpoint_o(&mut self.templates.endpoint);
        Self::validate_endpoint_o(&mut self.scripts.endpoint);
        Self::validate_endpoint_o(&mut self.files.endpoint);
        let mut tailwind_endpoint = copy_str(self.get_files_endpoint());
        tailwind_endpoint.append("tailwind.css");
        proof {
            reveal_strlit("tailwind.css");
            assert("tailwind.css"@ =~= tailwind_file_name());
        }
        self.tailwind_endpoint = tailwind_endpoint;
        let templates_suffixes = with_index_suffixes(&self.templates.suffixes, self.index_word.as_str());
        self.templates.suffixes = templates_suffixes;
        let scripts_suffixes = with_index_suffixes(&self.scripts.suffixes, self.index_word.as_str());
        self.scripts.suffixes = scripts_suffixes;
    }

    /// The asset URI that `uri` asks for: the URI with the files endpoint
    /// (less its final `/`) taken off its front; `None` where it does not start
    /// so, where what is left neither is empty nor starts with `/` or `?`, or
    /// where what is left is no URI.
    pub fn get_files_uri(&self, uri: &Uri) -> (r: Option<Uri>)
        ensures
            match self@.files_uri_text_for(uri_text_of(uri@)) {
                Some(t) => if uri_parses(t) {
                    r matches Some(a) && a@ == t
                } else {
                    r is None
                },
                None => r is None,
            },
    {
        let uri_string = uri.to_text();
        let endpoint = chars_of(self.get_files_endpoint());
        let keep = if endpoint.len() > 0 {
            endpoint.len() - 1
        } else {
            0
        };
        let prefix = string_of(endpoint.as_slice(), 0, keep);
        assert(prefix@ =~= without_last_char(self@.files_endpoint()));
        match strip_prefix(uri_string.as_str(), prefix.as_str()) {
            Some(rest) => {
                let cs = chars_of(rest.as_str());
                if cs.len() == 0 || cs[0] == '/' || cs[0] == '?' {
                    Uri::parse(rest.as_str())
                } else {
                    None
                }
            },
            None => None,
        }
    }

    /// The template that a request for `uri` asks for; `None` where the
    /// request lies outside the templates endpoint.
    pub fn get_template_name(&self, uri: &Uri) -> (r: Option<String>)
        ensures
            opt_text(r) == self@.template_name_for(uri_path_of(uri@)),
    {
        name_under_endpoint(self.get_templates_endpoint(), uri)
    }

    /// The script that a request for `uri` asks for; `None` where the request
    /// lies outside the scripts endpoint.
    pub fn get_script_name(&self, uri: &Uri) -> (r: Option<String>)
        ensures
            opt_text(r) == self@.script_name_for(uri_path_of(uri@)),
    {
        name_under_endpoint(self.get_scripts_endpoint(), uri)
    }

    /// The word that marks a directory's index file.
    pub fn get_index_word(&self) -> (r: &str)
        ensures
            r@ == self@.index_word,
    {
        self.index_word.as_str()
    }

    /// The directory of extra configuration files, if any.
    pub fn get_include(&self) -> (r: &Option<String>)
        ensures
            opt_text(*r) == self@.included,
    {
        &self.included
    }

    /// Where templates are read from.
    pub fn get_templates_path(&self) -> (r: &str)
        ensures
            r@ == self@.templates_path(),
    {
        match &self.templates.path {
            Some(p) => p.as_str(),
            None => self.path.as_str(),
        }
    }

    /// Where templates are served.
    pub fn get_templates_endpoint(&self) -> (r: &str)
        ensures
            r@ == self@.templates_endpoint(),
    {
        match &self.templates.endpoint {
            Some(e) => e.as_str(),
            None => self.endpoint.as_str(),
        }
    }

    /// The suffixes that mark a file as a template.
    pub fn get_templates_suffixes(&self) -> (r: &Vec<String>)
        ensures
            texts(r@) == self@.templates.suffixes,
    {
        &self.templates.suffixes
    }

    /// Where scripts are read from.
    pub fn get_scripts_path(&self) -> (r: &str)
        ensures
            r@ == self@.scripts_path(),
    {
        match &self.scripts.path {
            Some(p) => p.as_str(),
            None => self.path.as_str(),
        }
    }

    /// Where scripts are served.
    pub fn get_scripts_endpoint(&self) -> (r: &str)
        ensures
            r@ == self@.scripts_endpoint(),
    {
        match &self.scripts.endpoint {
            Some(e) => e.as_str(),
            None => self.endpoint.as_str(),
        }
    }

    /// The suffixes that mark a file as a script.
    pub fn get_scripts_suffixes(&self) -> (r: &Vec<String>)
        ensures
            texts(r@) == self@.scripts.suffixes,
    {
        &self.scripts.suffixes
    }

    /// Where static files are read from.
    pub fn get_files_path(&self) -> (r: &str)
        ensures
            r@ == self@.files_path(),
    {
        match &self.files.path {
            Some(p) => p.as_str(),
            None => self.path.as_str(),
        }
    }

    /// Where static files are served.
    pub fn get_files_endpoint(&self) -> (r: &str)
        ensures
            r@ == self@.files_endpoint(),
    {
        match &self.files.endpoint {
            Some(e) => e.as_str(),
            None => self.endpoint.as_str(),
        }
    }

    /// Whether the tailwind stylesheet is built and served.
    pub fn get_tailwind_enable(&self) -> (r: bool)
        ensures
            r == self@.tailwind.enable,
    {
        self.tailwind.enable
    }

    /// Whether rendered output is searched for tailwind classes.
    pub fn get_tailwind_check_rendered(&self) -> (r: bool)
        ensures
            r == self@.tailwind.check_rendered,
    {
        self.tailwind.check_rendered
    }

    /// Whether rendered pages are searched for tailwind classes too: tailwind
    /// is on and `check_rendered` is set.
    pub fn scans_rendered_output(&self) -> (r: bool)
        ensures
            r == (self@.tailwind.enable && self@.tailwind.check_rendered),
    {
        self.tailwind.enable && self.tailwind.check_rendered
    }

    /// Where the tailwind stylesheet is served.
    pub fn get_tailwind_endpoint(&self) -> (r: &str)
        ensures
            r@ == self@.tailwind_endpoint,
    {
        self.tailwind_endpoint.as_str()
    }

    /// The value a template sees under `key`: `tailwind_href` is the tailwind
    /// endpoint; there is no other.
    pub fn get_value(&self, key: &str) -> (r: Option<String>)
        ensures
            key@ == seq!['t', 'a', 'i', 'l', 'w', 'i', 'n', 'd', '_', 'h', 'r', 'e', 'f'] ==> (r matches Some(v) && v@ == self@.tailwind_endpoint),
            key@ != seq!['t', 'a', 'i', 'l', 'w', 'i', 'n', 'd', '_', 'h', 'r', 'e', 'f'] ==> r is None,
    {
        proof {
            reveal_strlit("tailwind_href");
            assert("tailwind_href"@ =~= seq!['t', 'a', 'i', 'l', 'w', 'i', 'n', 'd', '_', 'h', 'r', 'e', 'f']);
        }
        if same_text(key, "tailwind_href") {
            Some(copy_str(self.tailwind_endpoint.as_str()))
        } else {
            None
        }
    }

    /// Whether the two configurations hold the same values.
    pub fn same_as(&self, other: &ConfigInner) -> (r: bool)
        ensures
            r == (self@ == other@),
    {
        same_text(self.path.as_str(), other.path.as_str())
            && same_text(self.endpoint.as_str(), other.endpoint.as_str())
            && same_text(self.index_word.as_str(), other.index_word.as_str())
            && same_opt_text(&self.included, &other.included)
            && self.templates.same_as(&other.templates)
            && self.scripts.same_as(&other.scripts)
            && self.files.same_as(&other.files)
            && self.tailwind.enable == other.tailwind.enable
            && self.tailwind.check_rendered == other.tailwind.check_rendered
            && same_text(self.tailwind_endpoint.as_str(), other.tailwind_endpoint.as_str())
    }

    /// Takes `new` in place of this configuration where the two differ; tells
    /// whether it did.
    pub fn replace_if_changed(&mut self, new: ConfigInner) -> (changed: bool)
        ensures
            changed == (old(self)@ != new@),
            final(self)@ == new@,
    {
        if self.same_as(&new) {
            false
        } else {
            *self = new;
            true
        }
    }
}

impl Default for ConfigInner {
    fn default() -> (r: ConfigInner)
        ensures
            r@ == (ConfigView {
                path: seq!['.'],
                endpoint: seq!['/'],
                index_word: seq!['i', 'n', 'd', 'e', 'x'],
                included: None,
                templates: FileConfigView { suffixes: Seq::empty(), path: None, endpoint: None },
                scripts: FileConfigView { suffixes: Seq::empty(), path: None, endpoint: None },
                files: FileConfigView { suffixes: Seq::empty(), path: None, endpoint: None },
                tailwind: TailwindConfigView { enable: true, check_rendered: true },
                tailwind_endpoint: seq!['/'] + tailwind_file_name(),
            }),
    {
        let mut tailwind_endpoint = Self::default_endpoint();
        tailwind_endpoint.append("tailwind.css");
        proof {
            reveal_strlit("tailwind.css");
            assert("tailwind.css"@ =~= tailwind_file_name());
        }
        ConfigInner {
            path: Self::default_path(),
            endpoint: Self::default_endpoint(),
            index_word: Self::default_index_word(),
            included: None,
            templates: FileConfig::default(),
            scripts: FileConfig::default(),
            files: FileConfig::default(),
            tailwind: TailwindConfig::default(),
            tailwind_endpoint,
        }
    }
}

} // verus!
