//! The message bundle: a validated locale tag and the compiled, immutable
//! mapping from message id to parsed message, with the render entry point.

use vstd::prelude::*;
use vstd::string::*;
use crate::args::ArgMap;
use crate::ast::{unique_ids, MessageDef, MsgModel};
use crate::errors::{errs_model, BundleError, RenderError, ResolutionErrModel, ResolutionError};
use crate::parser::{parse, spec_parse};
use crate::resolver::{resolve, resolve_model};
use crate::text::{digit_char, ident_start_char, is_digit, is_ident_start, split_on, split_str};

verus! {

// ---------------------------------------------------------------------------
// Locale tags.
// ---------------------------------------------------------------------------

/// Only ASCII letters.
pub open spec fn all_alpha(p: Seq<char>) -> bool {
    forall|i: int| 0 <= i < p.len() ==> is_ident_start(#[trigger] p[i])
}

/// Only ASCII letters and digits.
pub open spec fn all_alnum(p: Seq<char>) -> bool {
    forall|i: int| 0 <= i < p.len() ==> is_ident_start(#[trigger] p[i]) || is_digit(p[i])
}

/// The required first subtag: the language, two to eight letters.
pub open spec fn is_language_subtag(p: Seq<char>) -> bool {
    2 <= p.len() <= 8 && all_alpha(p)
}

/// An optional later subtag (script, region or variant): one to eight
/// letters or digits.
pub open spec fn is_extra_subtag(p: Seq<char>) -> bool {
    1 <= p.len() <= 8 && all_alnum(p)
}

/// A structured language tag: subtags separated by `-`; the language subtag
/// is required, script, region and variant subtags may follow.
pub open spec fn valid_locale(s: Seq<char>) -> bool {
    let parts = split_on(s, '-');
    &&& is_language_subtag(parts[0])
    &&& forall|i: int| 1 <= i < parts.len() ==> is_extra_subtag(#[trigger] parts[i])
}

/// Checks a language subtag.
#[verifier::loop_isolation(false)]
fn is_language_part(p: &String) -> (b: bool)
    ensures
        b == is_language_subtag(p@),
{
    let s = p.as_str();
    let n = s.unicode_len();
    if n < 2 || n > 8 {
        return false;
    }
    let mut i: usize = 0;
    while i < n
        invariant
            i <= n,
            forall|m: int| 0 <= m < i ==> is_ident_start(#[trigger] p@[m]),
        decreases n - i,
    {
        if !ident_start_char(s.get_char(i)) {
            return false;
        }
        i = i + 1;
    }
    true
}

/// Checks a later subtag.
#[verifier::loop_isolation(false)]
fn is_extra_part(p: &String) -> (b: bool)
    ensures
        b == is_extra_subtag(p@),
{
    let s = p.as_str();
    let n = s.unicode_len();
    if n < 1 || n > 8 {
        return false;
    }
    let mut i: usize = 0;
    while i < n
        invariant
            i <= n,
            forall|m: int|
                0 <= m < i ==> is_ident_start(#[trigger] p@[m]) || is_digit(p@[m]),
        decreases n - i,
    {
        let c = s.get_char(i);
        if !ident_start_char(c) && !digit_char(c) {
            return false;
        }
        i = i + 1;
    }
    true
}

/// A validated locale tag, e.g. `en-US`; constructed only from text that
/// conforms to the language-tag grammar, and immutable afterwards.
pub struct LocaleId {
    tag: String,
}

impl View for LocaleId {
    type V = Seq<char>;

    closed spec fn view(&self) -> Seq<char> {
        self.tag@
    }
}

impl LocaleId {
    /// A `LocaleId` always holds a tag the grammar accepts.
    pub open spec fn wf(&self) -> bool {
        valid_locale(self@)
    }

    /// Validates `tag` against the language-tag grammar; a malformed tag is
    /// rejected, and no `LocaleId` is produced for it.
    #[verifier::loop_isolation(false)]
    pub fn new(tag: &str) -> (r: Result<LocaleId, BundleError>)
        ensures
            valid_locale(tag@) ==> {
                &&& r is Ok
                &&& r->Ok_0@ == tag@
                &&& r->Ok_0.wf()
            },
            !valid_locale(tag@) ==> (r matches Err(BundleError::InvalidLocale(d)) && d@ == tag@),
    {
        let parts = split_str(tag, '-');
        proof {
            assert(split_on(tag@, '-').len() >= 1);
            assert(parts@.len() == parts.deep_view().len());
            assert(parts@[0]@ == parts.deep_view()[0]);
        }
        if !is_language_part(&parts[0]) {
            return Err(BundleError::InvalidLocale(tag.to_owned()));
        }
        let len = parts.len();
        let mut i: usize = 1;
        while i < len
            invariant
                1 <= i <= len,
                forall|m: int| 1 <= m < i ==> is_extra_subtag(#[trigger] parts.deep_view()[m]),
            decreases len - i,
        {
            proof {
                assert(parts@[i as int]@ == parts.deep_view()[i as int]);
            }
            if !is_extra_part(&parts[i]) {
                return Err(BundleError::InvalidLocale(tag.to_owned()));
            }
            i = i + 1;
        }
        Ok(LocaleId { tag: tag.to_owned() })
    }

    /// The tag as text.
    pub fn tag(&self) -> (r: &str)
        ensures
            r@ == self@,
    {
        self.tag.as_str()
    }
}

// ---------------------------------------------------------------------------
// The bundle.
// ---------------------------------------------------------------------------

/// Model of a bundle: its locale tag and its messages in definition order.
#[verifier::ext_equal]
pub struct BundleModel {
    pub locale: Seq<char>,
    pub msgs: Seq<MsgModel>,
}

/// The first message carrying `id`, if any.
pub open spec fn find_msg(msgs: Seq<MsgModel>, id: Seq<char>) -> Option<MsgModel>
    decreases msgs.len(),
{
    if msgs.len() == 0 {
        None
    } else if msgs[0].id == id {
        Some(msgs[0])
    } else {
        find_msg(msgs.drop_first(), id)
    }
}

/// The bundle holds a message under exactly `id`.
pub open spec fn spec_has_message(b: BundleModel, id: Seq<char>) -> bool {
    find_msg(b.msgs, id) is Some
}

/// What a render request yields: the resolved text and problems of the
/// message carrying `id`, or, when the bundle holds no such message, the
/// hard failure naming `id`.
pub open spec fn spec_format(
    b: BundleModel,
    id: Seq<char>,
    args: Seq<(Seq<char>, Seq<char>)>,
) -> Result<(Seq<char>, Seq<ResolutionErrModel>), Seq<char>> {
    match find_msg(b.msgs, id) {
        Some(m) => Ok(resolve_model(m.value, args, m.id)),
        None => Err(id),
    }
}

/// A compiled resource for one locale: built once, immutable, queried and
/// rendered from thereafter.
pub struct Bundle {
    locale: LocaleId,
    messages: Vec<MessageDef>,
}

impl View for Bundle {
    type V = BundleModel;

    closed spec fn view(&self) -> BundleModel {
        BundleModel { locale: self.locale@, msgs: crate::ast::msgs_model(self.messages@) }
    }
}

impl Bundle {
    /// The locale tag is valid; message ids are pairwise distinct; each
    /// message's attribute ids are pairwise distinct; and every id conforms
    /// to the identifier grammar.
    pub open spec fn wf(&self) -> bool {
        &&& valid_locale(self@.locale)
        &&& unique_ids(self@.msgs)
        &&& forall|k: int|
            0 <= k < self@.msgs.len() ==> crate::ast::msg_attrs_unique(#[trigger] self@.msgs[k])
        &&& forall|k: int|
            0 <= k < self@.msgs.len() ==> crate::ast::msg_ids_valid(#[trigger] self@.msgs[k])
    }

    /// Compiles `resource_text` for `locale`. All or nothing: a malformed
    /// locale tag or any parse failure rejects the whole resource, and no
    /// bundle is produced; otherwise the bundle holds exactly the messages
    /// `spec_parse` yields, under its locale.
    pub fn new(locale: &str, resource_text: &str) -> (r: Result<Bundle, BundleError>)
        ensures
            valid_locale(locale@) && spec_parse(resource_text@) is Ok ==> {
                &&& r is Ok
                &&& r->Ok_0@.locale == locale@
                &&& r->Ok_0@.msgs == spec_parse(resource_text@)->Ok_0
                &&& r->Ok_0.wf()
            },
            !valid_locale(locale@) ==> (r matches Err(BundleError::InvalidLocale(d)) && d@
                == locale@),
            valid_locale(locale@) && spec_parse(resource_text@) is Err ==> (r matches Err(
                BundleError::ParseFailure(e),
            ) && e@ == spec_parse(resource_text@)->Err_0),
    {
        let lid = match LocaleId::new(locale) {
            Err(e) => {
                return Err(e);
            },
            Ok(l) => l,
        };
        let res = match parse(resource_text) {
            Err(pe) => {
                return Err(BundleError::ParseFailure(pe));
            },
            Ok(res) => res,
        };
        Ok(Bundle { locale: lid, messages: res.messages })
    }

    /// The message stored under exactly `id`, without copying its pattern;
    /// absence is a normal outcome, not an error.
    pub fn get_message<'a>(&'a self, id: &str) -> (r: Option<&'a MessageDef>)
        ensures
            match r {
                Some(m) => find_msg(self@.msgs, id@) == Some(m@),
                None => find_msg(self@.msgs, id@) is None,
            },
    {
        let ghost ms = self@.msgs;
        let wanted: String = id.to_owned();
        let n = self.messages.len();
        let mut i: usize = 0;
        proof {
            assert(ms.skip(0) =~= ms);
        }
        while i < n
            invariant
                i <= n,
                n == self.messages.len(),
                ms == self@.msgs,
                wanted@ == id@,
                find_msg(ms, id@) == find_msg(ms.skip(i as int), id@),
            decreases n - i,
        {
            proof {
                assert(ms.skip(i as int)[0] == ms[i as int]);
                assert(ms.skip(i as int).drop_first() =~= ms.skip(i + 1));
            }
            if self.messages[i].id == wanted {
                return Some(&self.messages[i]);
            }
            i = i + 1;
        }
        proof {
            assert(ms.skip(n as int).len() == 0);
        }
        None
    }

    /// Whether the bundle holds a message under exactly `id`, case
    /// sensitively; no side effects.
    pub fn has_message(&self, id: &str) -> (r: bool)
        ensures
            r == spec_has_message(self@, id@),
    {
        match self.get_message(id) {
            Some(_) => true,
            None => false,
        }
    }

    /// Renders the message under `id` against `args`: a hard
    /// `UnknownMessage` failure when the bundle holds no such message, and
    /// otherwise the message's resolved text together with every collected
    /// problem, exactly as `spec_format` says.
    pub fn format_pattern(&self, id: &str, args: &ArgMap) -> (r: Result<
        (String, Vec<ResolutionError>),
        RenderError,
    >)
        ensures
            match spec_format(self@, id@, args@) {
                Ok(out) => {
                    &&& r is Ok
                    &&& r->Ok_0.0@ == out.0
                    &&& errs_model(r->Ok_0.1@) == out.1
                },
                Err(missing) => (r matches Err(RenderError::UnknownMessage(d)) && d@ == missing),
            },
    {
        match self.get_message(id) {
            None => Err(RenderError::UnknownMessage(id.to_owned())),
            Some(m) => {
                let rendered = resolve(&m.value, args, m.id.as_str());
                Ok(rendered)
            },
        }
    }

    /// The bundle's locale tag.
    pub fn locale(&self) -> (r: &LocaleId)
        ensures
            r@ == self@.locale,
    {
        &self.locale
    }
}

/// A render request hard-fails exactly where `has_message` answers `false`,
/// and the failure names the id that was asked for; where the message
/// exists, rendering always yields a best-effort string.
pub proof fn lemma_format_fails_iff_unknown(
    b: BundleModel,
    id: Seq<char>,
    args: Seq<(Seq<char>, Seq<char>)>,
)
    ensures
        spec_format(b, id, args) is Err <==> !spec_has_message(b, id),
        spec_format(b, id, args) is Err ==> spec_format(b, id, args)->Err_0 == id,
{
}

/// Rendering is deterministic: a pure function of the bundle, the message id
/// and the argument mapping. Equal inputs yield identical text and identical
/// problem sequences, however often the request is repeated.
pub proof fn lemma_format_deterministic(
    b1: BundleModel,
    b2: BundleModel,
    id1: Seq<char>,
    id2: Seq<char>,
    args1: Seq<(Seq<char>, Seq<char>)>,
    args2: Seq<(Seq<char>, Seq<char>)>,
)
    requires
        b1 == b2,
        id1 == id2,
        args1 == args2,
    ensures
        spec_format(b1, id1, args1) == spec_format(b2, id2, args2),
{
}

} // verus!
