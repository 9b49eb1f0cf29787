//! The parsed form of a resource: messages, their patterns, and the
//! mathematical models that contracts speak of.

use vstd::prelude::*;

verus! {

/// Model of one pattern element: a run of literal text, or a variable
/// reference to be substituted at render time.
#[verifier::ext_equal]
pub enum ElemModel {
    Text(Seq<char>),
    Var(Seq<char>),
}

/// One element of a message's pattern: a literal text run, kept verbatim, or
/// a placeable naming the argument whose value is substituted for it.
pub enum PatternElement {
    Text(String),
    Placeable(String),
}

impl View for PatternElement {
    type V = ElemModel;

    open spec fn view(&self) -> ElemModel {
        match self {
            PatternElement::Text(t) => ElemModel::Text(t@),
            PatternElement::Placeable(v) => ElemModel::Var(v@),
        }
    }
}

/// The model of a whole pattern.
pub open spec fn elems_model(s: Seq<PatternElement>) -> Seq<ElemModel> {
    s.map_values(|e: PatternElement| e@)
}

/// Model of one message: its id, the pattern of its value, and its
/// attributes in definition order.
#[verifier::ext_equal]
pub struct MsgModel {
    pub id: Seq<char>,
    pub value: Seq<ElemModel>,
    pub attrs: Seq<(Seq<char>, Seq<ElemModel>)>,
}

/// One named message: a pattern for its value and a pattern per attribute.
pub struct MessageDef {
    pub id: String,
    pub value: Vec<PatternElement>,
    pub attributes: Vec<(String, Vec<PatternElement>)>,
}

/// The model of an attribute list.
pub open spec fn attrs_model(s: Seq<(String, Vec<PatternElement>)>) -> Seq<
    (Seq<char>, Seq<ElemModel>),
> {
    s.map_values(|a: (String, Vec<PatternElement>)| (a.0@, elems_model(a.1@)))
}

impl View for MessageDef {
    type V = MsgModel;

    open spec fn view(&self) -> MsgModel {
        MsgModel {
            id: self.id@,
            value: elems_model(self.value@),
            attrs: attrs_model(self.attributes@),
        }
    }
}

/// The model of a sequence of messages.
pub open spec fn msgs_model(s: Seq<MessageDef>) -> Seq<MsgModel> {
    s.map_values(|m: MessageDef| m@)
}

/// The parsed result of one resource text: its messages in definition order.
pub struct Resource {
    pub messages: Vec<MessageDef>,
}

impl View for Resource {
    type V = Seq<MsgModel>;

    open spec fn view(&self) -> Seq<MsgModel> {
        msgs_model(self.messages@)
    }
}

/// Message ids are pairwise distinct.
pub open spec fn unique_ids(msgs: Seq<MsgModel>) -> bool {
    forall|i: int, j: int|
        0 <= i < j < msgs.len() ==> #[trigger] msgs[i].id != #[trigger] msgs[j].id
}

/// The message's attribute ids are pairwise distinct.
pub open spec fn msg_attrs_unique(m: MsgModel) -> bool {
    forall|i: int, j: int|
        0 <= i < j < m.attrs.len() ==> (#[trigger] m.attrs[i]).0 != (#[trigger] m.attrs[j]).0
}

/// The message's id and every attribute id conform to the identifier
/// grammar.
pub open spec fn msg_ids_valid(m: MsgModel) -> bool {
    &&& crate::text::is_valid_ident(m.id)
    &&& forall|a: int|
        0 <= a < m.attrs.len() ==> crate::text::is_valid_ident((#[trigger] m.attrs[a]).0)
}

/// The literal text of a pattern: its text runs concatenated, with nothing
/// contributed by placeables.
pub open spec fn literal_text(elems: Seq<ElemModel>) -> Seq<char>
    decreases elems.len(),
{
    if elems.len() == 0 {
        Seq::empty()
    } else {
        (match elems[0] {
            ElemModel::Text(t) => t,
            ElemModel::Var(_) => Seq::empty(),
        }) + literal_text(elems.drop_first())
    }
}

} // verus!
