//! The tailwind stylesheet: classes collected from template sources, traced
//! with `tailwind_css`, bundled on demand and served with an entity tag.
use std::collections::hash_map::DefaultHasher;
use std::hash::Hasher;

use vstd::hash_set::StringHashSet;
use vstd::prelude::*;
use vstd::std_specs::hash::DefaultHasherAdditionalSpecFns;
use vstd::utf8::encode_utf8;

use crate::config::opt_text;
use crate::text::{is_white_space, lower_hex, push_char, split_whitespace, to_lower_hex, words};

verus! {

#[verifier::external_type_specification]
#[verifier::external_body]
pub struct ExTailwindBuilder(tailwind_css::TailwindBuilder);

/// The styles `TailwindBuilder::trace` accepted on a builder since
/// `TailwindBuilder::default()` made it, in order: what the builder holds is a
/// function of them.
pub uninterp spec fn builder_history(b: tailwind_css::TailwindBuilder) -> Seq<Seq<char>>;

/// Whether `TailwindBuilder::trace` accepts `style` (returns `Ok`).
pub uninterp spec fn tailwind_accepts(style: Seq<char>) -> bool;

/// What `TailwindBuilder::bundle` returns for a default builder that was
/// handed the styles `history`: `Some` stylesheet, or `None` for an error.
pub uninterp spec fn bundle_of(history: Seq<Seq<char>>) -> Option<Seq<char>>;

/// For the regular expression `pattern` and the text `haystack`: `None` where
/// `regex::Regex::new` refuses the pattern, else, for each match that
/// `Regex::captures_iter` yields in order, its first capture group.
pub uninterp spec fn regex_first_groups(pattern: Seq<char>, haystack: Seq<char>) -> Option<
    Seq<Option<Seq<char>>>,
>;

/// `TailwindBuilder::default()`: a builder that has traced nothing.
#[verifier::external_body]
fn new_builder() -> (b: tailwind_css::TailwindBuilder)
    ensures
        builder_history(b) == Seq::<Seq<char>>::empty(),
{
    tailwind_css::TailwindBuilder::default()
}

/// `TailwindBuilder::trace(style, false)`, reporting whether it succeeded; the
/// contract claims the answer is the named `tailwind_accepts` of the style, and
/// that an accepted style joins the builder's history while a refused one
/// leaves the builder as it was (a style without whitespace or parentheses is
/// one instruction, and `trace` returns its error before storing anything).
/// `trace` panics (`todo!`) on a style whose parts are `prose`, so such styles
/// are left out; so are styles with whitespace, brackets or parentheses, which
/// reach `tailwind_css`'s grouping and arbitrary-value parsers, whose panics
/// are not stated here.
#[verifier::external_body]
fn builder_trace(b: &mut tailwind_css::TailwindBuilder, style: &str) -> (ok: bool)
    requires
        traceable(style@),
    ensures
        ok == tailwind_accepts(style@),
        ok ==> builder_history(*final(b)) == builder_history(*old(b)).push(style@),
        !ok ==> builder_history(*final(b)) == builder_history(*old(b)),
{
    b.trace(style, false).is_ok()
}

/// `TailwindBuilder::bundle`, with an error turned into `None`; the contract
/// claims the result is the named `bundle_of` of the builder's history.
#[verifier::external_body]
fn builder_bundle(b: &tailwind_css::TailwindBuilder) -> (r: Option<String>)
    ensures
        opt_text(r) == bundle_of(builder_history(*b)),
{
    b.bundle().ok()
}

/// Compiles `pattern` with `regex::Regex::new` and collects, for each match of
/// `Regex::captures_iter` over `haystack`, its first capture group; `None`
/// where the pattern does not compile. The contract claims the result is the
/// named `regex_first_groups`.
#[verifier::external_body]
fn regex_capture_groups(pattern: &str, haystack: &str) -> (r: Option<Vec<Option<String>>>)
    ensures
        match r {
            Some(v) => regex_first_groups(pattern@, haystack@) == Some(
                v@.map_values(|g: Option<String>| opt_text(g)),
            ),
            None => regex_first_groups(pattern@, haystack@) is None,
        },
{
    match regex::Regex::new(pattern) {
        Ok(re) => Some(
            re.captures_iter(haystack).map(|c| c.get(1).map(|m| m.as_str().to_owned())).collect(),
        ),
        Err(_) => None,
    }
}

/// `c` is a bracket or a parenthesis.
pub open spec fn is_bracket(c: char) -> bool {
    c == '[' || c == ']' || c == '(' || c == ')'
}

/// `prose` stands in `s` at index `i`.
pub open spec fn prose_at(s: Seq<char>, i: int) -> bool {
    &&& 0 <= i
    &&& i + 5 <= s.len()
    &&& s[i] == 'p'
    &&& s[i + 1] == 'r'
    &&& s[i + 2] == 'o'
    &&& s[i + 3] == 's'
    &&& s[i + 4] == 'e'
}

/// Whether a class name may be handed to tailwind: it holds no whitespace,
/// bracket or parenthesis and does not contain `prose`, on which tailwind
/// panics.
pub open spec fn traceable(style: Seq<char>) -> bool {
    &&& forall|i: int|
        0 <= i < style.len() ==> !is_bracket(#[trigger] style[i]) && !is_white_space(style[i])
    &&& forall|i: int| !prose_at(style, i)
}

/// Whether the class name `style` may be handed to tailwind.
pub fn is_traceable(style: &str) -> (r: bool)
    ensures
        r == traceable(style@),
{
    let cs = crate::text::chars_of(style);
    let n = cs.len();
    let mut i: usize = 0;
    while i < n
        invariant
            n == cs@.len(),
            cs@ == style@,
            i <= n,
            forall|k: int| 0 <= k < i ==> !is_bracket(#[trigger] cs@[k]) && !is_white_space(cs@[k]),
            forall|k: int| 0 <= k < i ==> !prose_at(cs@, k),
        decreases n - i,
    {
        let c = cs[i];
        if c == '[' || c == ']' || c == '(' || c == ')' || crate::text::is_whitespace_char(c) {
            return false;
        }
        if n - i >= 5 && cs[i] == 'p' && cs[i + 1] == 'r' && cs[i + 2] == 'o' && cs[i + 3] == 's'
            && cs[i + 4] == 'e' {
            assert(prose_at(style@, i as int));
            return false;
        }
        i = i + 1;
    }
    assert forall|k: int| !prose_at(style@, k) by {
        if 0 <= k < n {
        } else if k >= n {
        }
    }
    true
}

/// The class attributes of a template: `class="..."` holding word characters,
/// `/`, `:`, `-` and whitespace.
pub const CLASS_ATTRIBUTE_PATTERN: &'static str = "class=\"([\\w\\/:\\-\\s]+)\"";

/// The class names in the captured attribute values `groups`, in order.
pub open spec fn class_tokens(groups: Seq<Option<Seq<char>>>) -> Seq<Seq<char>>
    decreases groups.len(),
{
    if groups.len() == 0 {
        Seq::empty()
    } else {
        class_tokens(groups.drop_last()) + match groups.last() {
            Some(g) => words(g),
            None => Seq::empty(),
        }
    }
}

/// The class names found in the class attributes of `content`, in order.
pub open spec fn content_classes(content: Seq<char>) -> Seq<Seq<char>> {
    match regex_first_groups(CLASS_ATTRIBUTE_PATTERN@, content) {
        Some(groups) => class_tokens(groups),
        None => Seq::empty(),
    }
}

/// The entity tag of a stylesheet: the `DefaultHasher` hash of its UTF-8
/// bytes in lower-case hexadecimal, in double quotes.
pub open spec fn etag_for(bundle: Seq<char>) -> Seq<char> {
    seq!['"'] + lower_hex(DefaultHasher::spec_finish(seq![encode_utf8(bundle)]) as nat) + seq!['"']
}

/// The abstract state of a [`Tailwind`].
pub struct TailwindView {
    /// Every class name seen so far.
    pub classes: Set<Seq<char>>,
    /// The class names tailwind accepted, in order.
    pub traced: Seq<Seq<char>>,
    /// The traced names from which the current stylesheet was bundled.
    pub built_from: Seq<Seq<char>>,
    /// The current stylesheet.
    pub bundle: Seq<char>,
    /// The entity tag of the current stylesheet.
    pub etag: Seq<char>,
    /// Whether a class accepted since the last bundling makes the stylesheet out of date.
    pub changed: bool,
}

impl TailwindView {
    /// The state after meeting the class name `c`: a name not seen before is
    /// recorded and, where it may be handed to tailwind, traced; one that
    /// tailwind accepts joins what was traced and marks the stylesheet out of
    /// date.
    pub open spec fn after_class(self, c: Seq<char>) -> TailwindView {
        if self.classes.contains(c) {
            self
        } else if traceable(c) && tailwind_accepts(c) {
            TailwindView {
                classes: self.classes.insert(c),
                traced: self.traced.push(c),
                changed: true,
                ..self
            }
        } else {
            TailwindView { classes: self.classes.insert(c), ..self }
        }
    }

    /// The state after meeting the class names `cs`, in order.
    pub open spec fn after_classes(self, cs: Seq<Seq<char>>) -> TailwindView
        decreases cs.len(),
    {
        if cs.len() == 0 {
            self
        } else {
            self.after_classes(cs.drop_last()).after_class(cs.last())
        }
    }

    /// A stylesheet can be bundled from what was traced, where one is needed.
    pub open spec fn can_finish(self) -> bool {
        self.changed ==> bundle_of(self.traced) is Some
    }

    /// The state once the stylesheet is brought up to date: where it is out of
    /// date, it is bundled anew from what was traced and gets a new entity tag.
    pub open spec fn finished(self) -> TailwindView {
        if self.changed {
            let b = bundle_of(self.traced)->0;
            TailwindView {
                built_from: self.traced,
                bundle: b,
                etag: etag_for(b),
                changed: false,
                ..self
            }
        } else {
            self
        }
    }
}

/// What a request for the tailwind stylesheet is answered with.
pub enum TailwindResponse {
    /// `304 Not Modified`: the client's copy is current.
    NotModified,
    /// `412 Precondition Failed`: the client asked for another version.
    PreconditionFailed,
    /// `200 OK` with the stylesheet, `text/css`, under the entity tag.
    Stylesheet { etag: String, bundle: String },
}

/// Whether the header value `v` is the entity tag `etag`, byte for byte.
pub open spec fn header_is(v: Seq<u8>, etag: Seq<char>) -> bool {
    v == encode_utf8(etag)
}

/// The kind of answer to a request carrying the headers `if_none_match` and
/// `if_match`, given the current entity tag.
pub open spec fn response_kind(
    if_none_match: Option<Seq<u8>>,
    if_match: Option<Seq<u8>>,
    etag: Seq<char>,
) -> TailwindResponseKind {
    if if_none_match matches Some(v) && header_is(v, etag) {
        TailwindResponseKind::NotModified
    } else if if_match matches Some(v) && !header_is(v, etag) {
        TailwindResponseKind::PreconditionFailed
    } else {
        TailwindResponseKind::Stylesheet
    }
}

/// The bytes of an optional header value.
pub open spec fn header_bytes(h: Option<&[u8]>) -> Option<Seq<u8>> {
    match h {
        Some(v) => Some(v@),
        None => None,
    }
}

/// The kind of a [`TailwindResponse`], for contracts.
pub enum TailwindResponseKind {
    NotModified,
    PreconditionFailed,
    Stylesheet,
}

impl TailwindResponse {
    /// The kind of this response.
    pub open spec fn kind(self) -> TailwindResponseKind {
        match self {
            TailwindResponse::NotModified => TailwindResponseKind::NotModified,
            TailwindResponse::PreconditionFailed => TailwindResponseKind::PreconditionFailed,
            TailwindResponse::Stylesheet { .. } => TailwindResponseKind::Stylesheet,
        }
    }
}

/// Whether two byte strings are equal.
fn same_bytes(a: &[u8], b: &[u8]) -> (r: bool)
    ensures
        r == (a@ == b@),
{
    if a.len() != b.len() {
        return false;
    }
    let mut i: usize = 0;
    while i < a.len()
        invariant
            a@.len() == b@.len(),
            i <= a@.len(),
            forall|k: int| 0 <= k < i ==> a@[k] == b@[k],
        decreases a.len() - i,
    {
        if a[i] != b[i] {
            return false;
        }
        i = i + 1;
    }
    assert(a@ =~= b@);
    true
}

/// The entity tag of `bundle`.
fn compute_etag(bundle: &str) -> (r: String)
    ensures
        r@ == etag_for(bundle@),
{
    let mut hasher = DefaultHasher::new();
    hasher.write(bundle.as_bytes());
    let digest = hasher.finish();
    let mut etag = String::new();
    push_char(&mut etag, '"');
    let hex = to_lower_hex(digest);
    etag.append(hex.as_str());
    push_char(&mut etag, '"');
    assert(hasher@ =~= seq![encode_utf8(bundle@)]);
    assert(etag@ =~= etag_for(bundle@));
    etag
}

/// The tailwind stylesheet of the templates seen so far.
pub struct Tailwind {
    builder: tailwind_css::TailwindBuilder,
    classes: StringHashSet,
    bundle: String,
    etag: String,
    changed: bool,
    built_from: Ghost<Seq<Seq<char>>>,
}

impl View for Tailwind {
    type V = TailwindView;

    closed spec fn view(&self) -> TailwindView {
        TailwindView {
            classes: self.classes@,
            traced: builder_history(self.builder),
            built_from: self.built_from@,
            bundle: self.bundle@,
            etag: self.etag@,
            changed: self.changed,
        }
    }
}

impl TailwindView {
    /// The state is consistent: the stylesheet was bundled from a prefix of
    /// what was traced and, unless it is out of date, from all of it, under
    /// the stylesheet's own entity tag.
    pub open spec fn wf(self) -> bool {
        &&& self.built_from.len() <= self.traced.len()
        &&& self.traced.take(self.built_from.len() as int) == self.built_from
        &&& !self.changed ==> {
            &&& self.built_from == self.traced
            &&& bundle_of(self.built_from) == Some(self.bundle)
            &&& self.etag == etag_for(self.bundle)
        }
    }
}

proof fn lemma_after_class_wf(s: TailwindView, c: Seq<char>)
    requires
        s.wf(),
    ensures
        s.after_class(c).wf(),
        s.after_class(c).built_from == s.built_from,
        s.after_class(c).bundle == s.bundle,
        s.after_class(c).etag == s.etag,
{
    if !s.classes.contains(c) {
        let t = s.after_class(c);
        assert(t.traced.take(s.built_from.len() as int) =~= s.traced.take(
            s.built_from.len() as int,
        ));
        if s.changed {
            assert(t.changed);
        }
    }
}

/// Each class name is handed to tailwind at most once: where every traced
/// name is recorded as seen and none is traced twice, meeting more class names
/// keeps it so.
pub proof fn lemma_each_class_traced_once(s: TailwindView, cs: Seq<Seq<char>>)
    requires
        s.traced.no_duplicates(),
        forall|i: int| 0 <= i < s.traced.len() ==> s.classes.contains(#[trigger] s.traced[i]),
    ensures
        s.after_classes(cs).traced.no_duplicates(),
        forall|i: int|
            0 <= i < s.after_classes(cs).traced.len() ==> s.after_classes(cs).classes.contains(
                #[trigger] s.after_classes(cs).traced[i],
            ),
    decreases cs.len(),
{
    if cs.len() > 0 {
        lemma_each_class_traced_once(s, cs.drop_last());
        let t = s.after_classes(cs.drop_last());
        let c = cs.last();
        if !t.classes.contains(c) {
            let u = t.after_class(c);
            assert forall|i: int, j: int|
                0 <= i < u.traced.len() && 0 <= j < u.traced.len() && i != j implies u.traced[i]
                != u.traced[j] by {
                if i < t.traced.len() && j < t.traced.len() {
                } else if i < t.traced.len() {
                    assert(t.classes.contains(t.traced[i]));
                } else if j < t.traced.len() {
                    assert(t.classes.contains(t.traced[j]));
                }
            }
            assert forall|i: int| 0 <= i < u.traced.len() implies u.classes.contains(
                #[trigger] u.traced[i],
            ) by {
                if i < t.traced.len() {
                    assert(t.classes.contains(t.traced[i]));
                }
            }
        }
    }
}

proof fn lemma_after_classes_records(s: TailwindView, cs: Seq<Seq<char>>)
    ensures
        forall|c: Seq<char>| #[trigger] s.classes.contains(c) ==> s.after_classes(cs).classes.contains(c),
        forall|i: int| 0 <= i < cs.len() ==> s.after_classes(cs).classes.contains(#[trigger] cs[i]),
    decreases cs.len(),
{
    if cs.len() > 0 {
        lemma_after_classes_records(s, cs.drop_last());
        assert forall|i: int| 0 <= i < cs.len() implies s.after_classes(cs).classes.contains(
            #[trigger] cs[i],
        ) by {
            if i < cs.len() - 1 {
                assert(cs.drop_last()[i] == cs[i]);
            }
        }
    }
}

/// Meeting class names that were all seen before changes nothing: the
/// stylesheet, its tag and what was traced stay as they were.
pub proof fn lemma_seen_classes_change_nothing(t: TailwindView, cs: Seq<Seq<char>>)
    requires
        forall|i: int| 0 <= i < cs.len() ==> t.classes.contains(#[trigger] cs[i]),
    ensures
        t.after_classes(cs) == t,
    decreases cs.len(),
{
    if cs.len() > 0 {
        assert forall|i: int| 0 <= i < cs.drop_last().len() implies t.classes.contains(
            #[trigger] cs.drop_last()[i],
        ) by {
            assert(cs.drop_last()[i] == cs[i]);
        }
        lemma_seen_classes_change_nothing(t, cs.drop_last());
        assert(t.classes.contains(cs[cs.len() - 1]));
    }
}

/// Meeting class names makes the seen set exactly the old one together with
/// those names, and leaves the current stylesheet, its tag and the names it
/// was bundled from alone.
pub proof fn lemma_after_classes_seen_set(s: TailwindView, cs: Seq<Seq<char>>)
    ensures
        forall|c: Seq<char>|
            #[trigger] s.after_classes(cs).classes.contains(c) <==> (s.classes.contains(c)
                || cs.contains(c)),
        s.after_classes(cs).bundle == s.bundle,
        s.after_classes(cs).etag == s.etag,
        s.after_classes(cs).built_from == s.built_from,
    decreases cs.len(),
{
    if cs.len() > 0 {
        lemma_after_classes_seen_set(s, cs.drop_last());
        assert forall|c: Seq<char>|
            #[trigger] s.after_classes(cs).classes.contains(c) <==> (s.classes.contains(c)
                || cs.contains(c)) by {
            if cs.drop_last().contains(c) {
                let k = choose|k: int| 0 <= k < cs.drop_last().len() && cs.drop_last()[k] == c;
                assert(cs[k] == c);
            }
            if cs.contains(c) && c != cs.last() {
                let k = choose|k: int| 0 <= k < cs.len() && cs[k] == c;
                assert(k < cs.len() - 1);
                assert(cs.drop_last()[k] == c);
            }
            if c == cs.last() {
                assert(cs[cs.len() - 1] == c);
            }
        }
    }
}

/// Only a class name not seen before, handed to tailwind and accepted, marks
/// the stylesheet out of date: where no name among `cs` is such, whether the
/// stylesheet is out of date stays as it was.
pub proof fn lemma_only_accepted_new_classes_change(s: TailwindView, cs: Seq<Seq<char>>)
    requires
        forall|i: int|
            0 <= i < cs.len() && !s.classes.contains(#[trigger] cs[i]) ==> !(traceable(cs[i])
                && tailwind_accepts(cs[i])),
    ensures
        s.after_classes(cs).changed == s.changed,
        s.after_classes(cs).traced == s.traced,
    decreases cs.len(),
{
    if cs.len() > 0 {
        assert forall|i: int|
            0 <= i < cs.drop_last().len() && !s.classes.contains(
                #[trigger] cs.drop_last()[i],
            ) implies !(traceable(cs.drop_last()[i]) && tailwind_accepts(cs.drop_last()[i])) by {
            assert(cs.drop_last()[i] == cs[i]);
        }
        lemma_only_accepted_new_classes_change(s, cs.drop_last());
        lemma_after_classes_seen_set(s, cs.drop_last());
        let c = cs.last();
        assert(cs[cs.len() - 1] == c);
    }
}

/// A class name that tailwind refuses, or that may not be handed to it,
/// never changes the next stylesheet: where no name among `cs` that was not
/// seen before is one tailwind accepts, the stylesheet and entity tag that
/// bringing it up to date gives stay as they were.
pub proof fn lemma_refused_classes_keep_next_stylesheet(s: TailwindView, cs: Seq<Seq<char>>)
    requires
        forall|i: int|
            0 <= i < cs.len() && !s.classes.contains(#[trigger] cs[i]) ==> !(traceable(cs[i])
                && tailwind_accepts(cs[i])),
    ensures
        s.after_classes(cs).finished().bundle == s.finished().bundle,
        s.after_classes(cs).finished().etag == s.finished().etag,
        s.after_classes(cs).finished().traced == s.finished().traced,
{
    lemma_only_accepted_new_classes_change(s, cs);
    lemma_after_classes_seen_set(s, cs);
}

/// Once brought up to date, the stylesheet stays as it is: bringing it up to
/// date again (as `get_bundle` and `get_etag` do) gives the same stylesheet and
/// entity tag, and so does meeting class names until one not seen before is
/// accepted by tailwind.
pub proof fn lemma_finished_stylesheet_is_stable(s: TailwindView, cs: Seq<Seq<char>>)
    requires
        s.wf(),
        s.can_finish(),
        forall|i: int|
            0 <= i < cs.len() && !s.finished().classes.contains(#[trigger] cs[i]) ==> !(traceable(
                cs[i],
            ) && tailwind_accepts(cs[i])),
    ensures
        s.finished().finished() == s.finished(),
        s.finished().after_classes(cs).can_finish(),
        s.finished().after_classes(cs).finished().bundle == s.finished().bundle,
        s.finished().after_classes(cs).finished().etag == s.finished().etag,
{
    let f = s.finished();
    lemma_finished_tag_matches_bundle(s);
    lemma_refused_classes_keep_next_stylesheet(f, cs);
}

proof fn lemma_class_tokens_words(gs: Seq<Option<Seq<char>>>)
    ensures
        forall|i: int, j: int|
            0 <= i < gs.len() && gs[i] is Some && 0 <= j < words(gs[i]->0).len()
                ==> class_tokens(gs).contains(#[trigger] words(gs[i]->0)[j]),
        forall|w: Seq<char>|
            #[trigger] class_tokens(gs).contains(w) ==> exists|i: int, j: int|
                0 <= i < gs.len() && gs[i] is Some && 0 <= j < words(gs[i]->0).len() && #[trigger] words(
                    gs[i]->0,
                )[j] == w,
    decreases gs.len(),
{
    if gs.len() > 0 {
        let d = gs.drop_last();
        lemma_class_tokens_words(d);
        let k = gs.len() - 1;
        let pre = class_tokens(d);
        let tail = match gs.last() {
            Some(g) => words(g),
            None => Seq::<Seq<char>>::empty(),
        };
        assert(class_tokens(gs) == pre + tail);
        assert forall|i: int, j: int|
            0 <= i < gs.len() && gs[i] is Some && 0 <= j < words(gs[i]->0).len()
                implies class_tokens(gs).contains(#[trigger] words(gs[i]->0)[j]) by {
            if i < k {
                assert(d[i] == gs[i]);
                assert(pre.contains(words(d[i]->0)[j]));
                let m = choose|m: int| 0 <= m < pre.len() && pre[m] == words(d[i]->0)[j];
                assert((pre + tail)[m] == pre[m]);
            } else {
                assert((pre + tail)[pre.len() + j] == tail[j]);
            }
        }
        assert forall|w: Seq<char>| #[trigger] class_tokens(gs).contains(w) implies exists|i: int, j: int|
            0 <= i < gs.len() && gs[i] is Some && 0 <= j < words(gs[i]->0).len() && #[trigger] words(
                gs[i]->0,
            )[j] == w by {
            let m = choose|m: int| 0 <= m < (pre + tail).len() && (pre + tail)[m] == w;
            if m < pre.len() {
                assert(pre[m] == w);
                assert(pre.contains(w));
                let (i, j) = choose|i: int, j: int|
                    0 <= i < d.len() && d[i] is Some && 0 <= j < words(d[i]->0).len() && #[trigger] words(
                        d[i]->0,
                    )[j] == w;
                assert(d[i] == gs[i]);
                assert(words(gs[i]->0)[j] == w);
            } else {
                assert(tail[m - pre.len()] == w);
                assert(gs[k] is Some);
                assert(words(gs[k]->0)[m - pre.len()] == w);
            }
        }
    }
}

/// Every class attribute of a template is read: after meeting the classes of
/// `content`, every word of every attribute value the class pattern captures
/// is a seen class, and every class seen anew is such a word; where the
/// pattern yields nothing, nothing changes.
pub proof fn lemma_every_class_attribute_read(s: TailwindView, content: Seq<char>)
    ensures
        match regex_first_groups(CLASS_ATTRIBUTE_PATTERN@, content) {
            Some(groups) => {
                &&& forall|i: int, j: int|
                    0 <= i < groups.len() && groups[i] is Some && 0 <= j < words(groups[i]->0).len()
                        ==> s.after_classes(content_classes(content)).classes.contains(
                        #[trigger] words(groups[i]->0)[j],
                    )
                &&& forall|c: Seq<char>|
                    #[trigger] s.after_classes(content_classes(content)).classes.contains(c)
                        && !s.classes.contains(c) ==> exists|i: int, j: int|
                        0 <= i < groups.len() && groups[i] is Some && 0 <= j < words(
                            groups[i]->0,
                        ).len() && #[trigger] words(groups[i]->0)[j] == c
            },
            None => s.after_classes(content_classes(content)) == s,
        },
{
    let cs = content_classes(content);
    lemma_after_classes_seen_set(s, cs);
    if let Some(groups) = regex_first_groups(CLASS_ATTRIBUTE_PATTERN@, content) {
        lemma_class_tokens_words(groups);
    }
}

/// How a conditional request for the stylesheet is answered: `304 Not
/// Modified` exactly where If-None-Match carries the current tag; else `412
/// Precondition Failed` exactly where If-Match carries another one; else the
/// stylesheet (so a stale If-None-Match alone gets the new stylesheet).
pub proof fn lemma_conditional_request_answers(
    if_none_match: Option<Seq<u8>>,
    if_match: Option<Seq<u8>>,
    etag: Seq<char>,
)
    ensures
        response_kind(if_none_match, if_match, etag) is NotModified <==> (if_none_match matches Some(
            v,
        ) && v == encode_utf8(etag)),
        response_kind(if_none_match, if_match, etag) is PreconditionFailed <==> (!(
        if_none_match matches Some(v) && v == encode_utf8(etag)) && (if_match matches Some(w) && w
            != encode_utf8(etag))),
        response_kind(if_none_match, if_match, etag) is Stylesheet <==> (!(if_none_match matches Some(
            v,
        ) && v == encode_utf8(etag)) && !(if_match matches Some(w) && w != encode_utf8(etag))),
{
}

/// Meeting the same class names a second time changes nothing: collecting
/// the classes of a template again leaves the stylesheet as it was.
pub proof fn lemma_add_same_classes_twice(s: TailwindView, cs: Seq<Seq<char>>)
    ensures
        s.after_classes(cs).after_classes(cs) == s.after_classes(cs),
{
    lemma_after_classes_records(s, cs);
    lemma_seen_classes_change_nothing(s.after_classes(cs), cs);
}

/// Once brought up to date, the stylesheet is current, its entity tag is the
/// tag of the stylesheet served with it, and it is what tailwind bundles from
/// the classes traced up to then.
pub proof fn lemma_finished_tag_matches_bundle(s: TailwindView)
    requires
        s.wf(),
        s.can_finish(),
    ensures
        s.finished().wf(),
        !s.finished().changed,
        s.finished().etag == etag_for(s.finished().bundle),
        bundle_of(s.finished().built_from) == Some(s.finished().bundle),
{
    if s.changed {
        let f = s.finished();
        assert(f.traced.take(f.built_from.len() as int) =~= f.built_from);
    }
}

impl Tailwind {
    /// A stylesheet with no classes yet, out of date until first bundled.
    pub fn new() -> (r: Tailwind)
        ensures
            r@.wf(),
            r@ == (TailwindView {
                classes: Set::empty(),
                traced: Seq::empty(),
                built_from: Seq::empty(),
                bundle: Seq::empty(),
                etag: Seq::empty(),
                changed: true,
            }),
    {
        let r = Tailwind {
            builder: new_builder(),
            classes: StringHashSet::new(),
            bundle: String::new(),
            etag: String::new(),
            changed: true,
            built_from: Ghost(Seq::empty()),
        };
        assert(r@.traced.take(0) =~= Seq::<Seq<char>>::empty());
        r
    }

    /// Meets one class name.
    fn add_class(&mut self, class: String)
        requires
            old(self)@.wf(),
        ensures
            final(self)@ == old(self)@.after_class(class@),
            final(self)@.wf(),
    {
        proof {
            lemma_after_class_wf(self@, class@);
        }
        if !self.classes.contains(class.as_str()) {
            if is_traceable(class.as_str()) {
                let accepted = builder_trace(&mut self.builder, class.as_str());
                self.classes.insert(class);
                if accepted {
                    self.changed = true;
                }
            } else {
                self.classes.insert(class);
            }
        }
    }

    /// Collects the class names in the class attributes of `content`; each
    /// name not seen before is traced, and one that tailwind accepts marks the
    /// stylesheet out of date.
    pub fn add_content(&mut self, content: &str)
        requires
            old(self)@.wf(),
        ensures
            final(self)@ == old(self)@.after_classes(content_classes(content@)),
            final(self)@.wf(),
    {
        let groups = match regex_capture_groups(CLASS_ATTRIBUTE_PATTERN, content) {
            Some(groups) => groups,
            None => {
                return;
            },
        };
        let ghost gs = groups@.map_values(|g: Option<String>| opt_text(g));
        let ghost start = self@;
        let mut i: usize = 0;
        while i < groups.len()
            invariant
                i <= groups@.len(),
                gs == groups@.map_values(|g: Option<String>| opt_text(g)),
                self@.wf(),
                self@ == start.after_classes(class_tokens(gs.take(i as int))),
            decreases groups.len() - i,
        {
            assert(gs.take(i + 1).drop_last() =~= gs.take(i as int));
            match &groups[i] {
                Some(g) => {
                    let ws = split_whitespace(g.as_str());
                    let ghost before = class_tokens(gs.take(i as int));
                    let mut j: usize = 0;
                    while j < ws.len()
                        invariant
                            j <= ws@.len(),
                            ws@.map_values(|w: String| w@) == words(g@),
                            self@.wf(),
                            self@ == start.after_classes(before + words(g@).take(j as int)),
                        decreases ws.len() - j,
                    {
                        let w = crate::text::copy_str(ws[j].as_str());
                        assert((before + words(g@).take(j + 1)).drop_last() =~= before + words(
                            g@,
                        ).take(j as int));
                        assert(words(g@)[j as int] == ws@[j as int]@);
                        self.add_class(w);
                        j = j + 1;
                    }
                    assert(words(g@).take(words(g@).len() as int) =~= words(g@));
                },
                None => {
                    assert(class_tokens(gs.take(i + 1)) =~= class_tokens(gs.take(i as int)));
                },
            }
            i = i + 1;
        }
        assert(gs.take(groups@.len() as int) =~= gs);
    }

    /// Brings the stylesheet up to date (bundling it anew where a class was
    /// accepted since the last bundling) and returns its entity tag.
    pub fn finish(&mut self) -> (etag: String)
        requires
            old(self)@.wf(),
            old(self)@.can_finish(),
        ensures
            final(self)@ == old(self)@.finished(),
            final(self)@.wf(),
            etag@ == final(self)@.etag,
    {
        if self.changed {
            match builder_bundle(&self.builder) {
                Some(bundle) => {
                    let etag = compute_etag(bundle.as_str());
                    self.bundle = bundle;
                    self.etag = etag;
                    self.changed = false;
                    self.built_from = Ghost(builder_history(self.builder));
                    assert(self@.traced.take(self@.built_from.len() as int) =~= self@.built_from);
                },
                None => {},
            }
        }
        crate::text::copy_str(self.etag.as_str())
    }

    /// The entity tag of the up-to-date stylesheet.
    pub fn get_etag(&mut self) -> (etag: String)
        requires
            old(self)@.wf(),
            old(self)@.can_finish(),
        ensures
            final(self)@ == old(self)@.finished(),
            final(self)@.wf(),
            etag@ == final(self)@.etag,
    {
        if self.changed {
            self.finish()
        } else {
            crate::text::copy_str(self.etag.as_str())
        }
    }

    /// The up-to-date stylesheet with its entity tag, as (tag, stylesheet).
    pub fn get_bundle(&mut self) -> (r: (String, String))
        requires
            old(self)@.wf(),
            old(self)@.can_finish(),
        ensures
            final(self)@ == old(self)@.finished(),
            final(self)@.wf(),
            r.0@ == final(self)@.etag,
            r.1@ == final(self)@.bundle,
    {
        let etag = self.get_etag();
        (etag, crate::text::copy_str(self.bundle.as_str()))
    }

    /// Answers a request for the stylesheet that carries the `If-None-Match`
    /// and `If-Match` header values given: `304` where the first names the
    /// current tag, else `412` where the second names another, else the
    /// stylesheet.
    pub fn try_call(&mut self, if_none_match: Option<&[u8]>, if_match: Option<&[u8]>) -> (r:
        TailwindResponse)
        requires
            old(self)@.wf(),
            old(self)@.can_finish(),
        ensures
            final(self)@ == old(self)@.finished(),
            final(self)@.wf(),
            r.kind() == response_kind(
                header_bytes(if_none_match),
                header_bytes(if_match),
                final(self)@.etag,
            ),
            r matches TailwindResponse::Stylesheet { etag, bundle } ==> etag@ == final(self)@.etag
                && bundle@ == final(self)@.bundle,
    {
        let etag = self.get_etag();
        let tag_bytes = etag.as_str().as_bytes();
        match if_none_match {
            Some(v) => {
                if same_bytes(v, tag_bytes) {
                    return TailwindResponse::NotModified;
                }
            },
            None => {},
        }
        match if_match {
            Some(v) => {
                if !same_bytes(v, tag_bytes) {
                    return TailwindResponse::PreconditionFailed;
                }
            },
            None => {},
        }
        let (etag, bundle) = self.get_bundle();
        TailwindResponse::Stylesheet { etag, bundle }
    }

    /// Whether the stylesheet can be brought up to date: it is current, or
    /// bundling what was traced succeeds.
    pub fn can_finish(&self) -> (r: bool)
        ensures
            r == self@.can_finish(),
    {
        if self.changed {
            builder_bundle(&self.builder).is_some()
        } else {
            true
        }
    }

    /// Answers a request for the stylesheet as [`Tailwind::try_call`] does,
    /// where the stylesheet can be brought up to date; `None`, with nothing
    /// changed, where bundling fails.
    pub fn respond(&mut self, if_none_match: Option<&[u8]>, if_match: Option<&[u8]>) -> (r:
        Option<TailwindResponse>)
        requires
            old(self)@.wf(),
        ensures
            final(self)@.wf(),
            r is None <==> !old(self)@.can_finish(),
            r is None ==> final(self)@ == old(self)@,
            r matches Some(resp) ==> {
                &&& final(self)@ == old(self)@.finished()
                &&& resp.kind() == response_kind(
                    header_bytes(if_none_match),
                    header_bytes(if_match),
                    final(self)@.etag,
                )
                &&& resp matches TailwindResponse::Stylesheet { etag, bundle } ==> (etag@
                    == final(self)@.etag && bundle@ == final(self)@.bundle)
            },
    {
        if self.can_finish() {
            Some(self.try_call(if_none_match, if_match))
        } else {
            None
        }
    }
}

impl Default for Tailwind {
    fn default() -> (r: Tailwind)
        ensures
            r@.wf(),
            r@ == (TailwindView {
                classes: Set::empty(),
                traced: Seq::empty(),
                built_from: Seq::empty(),
                bundle: Seq::empty(),
                etag: Seq::empty(),
                changed: true,
            }),
    {
        Tailwind::new()
    }
}

} // verus!
