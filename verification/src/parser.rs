//! The resource parser: line-oriented message definitions, attribute and
//! continuation lines, and placeable syntax inside pattern bodies. The
//! grammar is stated as spec functions; the executable parser is proved to
//! return exactly what the grammar says, or the grammar's error.

use vstd::prelude::*;
use vstd::string::*;
use crate::ast::{elems_model, ElemModel, MessageDef, MsgModel, PatternElement, Resource};
use crate::errors::{ParseErrModel, ParseError, ParseErrorKind};
use crate::text::{
    ident_run_end, ident_start_char, is_ident_start, is_valid_ident, join_cont,
    lemma_ident_run_end_bounds, lemma_sep_end_bounds, lemma_skip_ws_bounds, scan_ident, scan_sep,
    scan_ws, sep_end, skip_ws, split_from, split_on,
};

verus! {

/// Short form for a parse-error model.
pub open spec fn perr(kind: ParseErrorKind, detail: Seq<char>) -> ParseErrModel {
    ParseErrModel { kind, detail }
}

// ---------------------------------------------------------------------------
// Placeables and pattern bodies.
// ---------------------------------------------------------------------------

/// What the placeable opened by the `{` at `o` denotes: the referenced
/// variable's name and the index just past the closing `}`. A body that ends
/// before the placeable is complete is an `UnterminatedPlaceable`; a wrong
/// character inside it is an `InvalidIdentifier`.
pub open spec fn parse_placeable(b: Seq<char>, o: int) -> Result<(Seq<char>, int), ParseErrModel> {
    let tail = b.subrange(o, b.len() as int);
    let k = skip_ws(b, o + 1);
    if k >= b.len() {
        Err(perr(ParseErrorKind::UnterminatedPlaceable, tail))
    } else if b[k] != '$' {
        Err(perr(ParseErrorKind::InvalidIdentifier, tail))
    } else if k + 1 >= b.len() {
        Err(perr(ParseErrorKind::UnterminatedPlaceable, tail))
    } else if !is_ident_start(b[k + 1]) {
        Err(perr(ParseErrorKind::InvalidIdentifier, tail))
    } else {
        let e = ident_run_end(b, k + 1);
        let q = skip_ws(b, e);
        if q >= b.len() {
            Err(perr(ParseErrorKind::UnterminatedPlaceable, tail))
        } else if b[q] != '}' {
            Err(perr(ParseErrorKind::InvalidIdentifier, tail))
        } else {
            Ok((b.subrange(k + 1, e), q + 1))
        }
    }
}

/// The elements of the pattern body `b` from index `i` on: literal text up
/// to each `{`, then the placeable it opens, to the end of the body.
pub open spec fn parse_elems(b: Seq<char>, i: int) -> Result<Seq<ElemModel>, ParseErrModel>
    decreases b.len() - i,
    when 0 <= i
    via parse_elems_decreases
{
    if i >= b.len() {
        Ok(Seq::empty())
    } else {
        let j = sep_end(b, i, '{');
        if j >= b.len() {
            Ok(seq![ElemModel::Text(b.subrange(i, b.len() as int))])
        } else {
            match parse_placeable(b, j) {
                Err(e) => Err(e),
                Ok(p) => match parse_elems(b, p.1) {
                    Err(e) => Err(e),
                    Ok(rest) => Ok(
                        if j > i {
                            seq![ElemModel::Text(b.subrange(i, j)), ElemModel::Var(p.0)] + rest
                        } else {
                            seq![ElemModel::Var(p.0)] + rest
                        },
                    ),
                },
            }
        }
    }
}

#[via_fn]
proof fn parse_elems_decreases(b: Seq<char>, i: int) {
    if 0 <= i < b.len() {
        lemma_sep_end_bounds(b, i, '{');
        let j = sep_end(b, i, '{');
        if j < b.len() {
            lemma_skip_ws_bounds(b, j + 1);
            let k = skip_ws(b, j + 1);
            if k + 1 < b.len() {
                lemma_ident_run_end_bounds(b, k + 1);
                let e = ident_run_end(b, k + 1);
                lemma_skip_ws_bounds(b, e);
            }
        }
    }
}

/// `done` followed by whatever `rest` yields, or `rest`'s error.
pub open spec fn ok_concat(done: Seq<ElemModel>, rest: Result<Seq<ElemModel>, ParseErrModel>) -> Result<
    Seq<ElemModel>,
    ParseErrModel,
> {
    match rest {
        Ok(s) => Ok(done + s),
        Err(e) => Err(e),
    }
}

/// Builds a `ParseError` whose detail is `line` itself.
fn line_err(line: &str, kind: ParseErrorKind) -> (r: ParseError)
    ensures
        r.kind == kind,
        r.detail@ == line@,
{
    ParseError { kind, detail: line.to_owned() }
}

/// Builds a `ParseError` whose detail is the tail of `b` from `o` on.
fn tail_err(b: &str, o: usize, n: usize, kind: ParseErrorKind) -> (r: ParseError)
    requires
        o <= n,
        n == b@.len(),
    ensures
        r.kind == kind,
        r.detail@ == b@.subrange(o as int, b@.len() as int),
{
    ParseError { kind, detail: b.substring_char(o, n).to_owned() }
}

/// Reads the placeable opened by the `{` at `open_idx`.
fn take_placeable(b: &str, open_idx: usize, n: usize) -> (r: Result<(String, usize), ParseError>)
    requires
        open_idx < n,
        n == b@.len(),
    ensures
        match parse_placeable(b@, open_idx as int) {
            Ok(p) => {
                &&& r is Ok
                &&& r->Ok_0.0@ == p.0
                &&& r->Ok_0.1 == p.1
                &&& open_idx < r->Ok_0.1 <= n
            },
            Err(e) => r is Err && r->Err_0@ == e,
        },
{
    let k = scan_ws(b, open_idx + 1, n);
    if k == n {
        return Err(tail_err(b, open_idx, n, ParseErrorKind::UnterminatedPlaceable));
    }
    if b.get_char(k) != '$' {
        return Err(tail_err(b, open_idx, n, ParseErrorKind::InvalidIdentifier));
    }
    if k + 1 == n {
        return Err(tail_err(b, open_idx, n, ParseErrorKind::UnterminatedPlaceable));
    }
    if !ident_start_char(b.get_char(k + 1)) {
        return Err(tail_err(b, open_idx, n, ParseErrorKind::InvalidIdentifier));
    }
    let e = scan_ident(b, k + 1, n);
    let q = scan_ws(b, e, n);
    if q == n {
        return Err(tail_err(b, open_idx, n, ParseErrorKind::UnterminatedPlaceable));
    }
    if b.get_char(q) != '}' {
        return Err(tail_err(b, open_idx, n, ParseErrorKind::InvalidIdentifier));
    }
    let name = b.substring_char(k + 1, e).to_owned();
    Ok((name, q + 1))
}

/// Parses one pattern body into its elements.
pub fn parse_pattern_body(b: &str) -> (r: Result<Vec<PatternElement>, ParseError>)
    ensures
        match parse_elems(b@, 0) {
            Ok(m) => r is Ok && elems_model(r->Ok_0@) == m,
            Err(e) => r is Err && r->Err_0@ == e,
        },
{
    let n = b.unicode_len();
    let mut out: Vec<PatternElement> = Vec::new();
    let mut pos: usize = 0;
    proof {
        assert(elems_model(out@) =~= Seq::<ElemModel>::empty());
        assert(Seq::<ElemModel>::empty() + parse_elems(b@, 0)->Ok_0 =~= parse_elems(b@, 0)->Ok_0);
    }
    loop
        invariant_except_break
            pos <= n,
            n == b@.len(),
            parse_elems(b@, 0) == ok_concat(elems_model(out@), parse_elems(b@, pos as int)),
        ensures
            parse_elems(b@, 0) == Ok::<Seq<ElemModel>, ParseErrModel>(elems_model(out@)),
        decreases n - pos,
    {
        let ghost done0 = elems_model(out@);
        if pos == n {
            proof {
                assert(done0 + Seq::<ElemModel>::empty() =~= done0);
            }
            break ;
        }
        let j = scan_sep(b, pos, n, '{');
        if j == n {
            let t = b.substring_char(pos, j).to_owned();
            let ghost tv = t@;
            out.push(PatternElement::Text(t));
            proof {
                assert(elems_model(out@) =~= done0.push(ElemModel::Text(tv)));
                assert(done0 + seq![ElemModel::Text(tv)] =~= done0.push(ElemModel::Text(tv)));
            }
            break ;
        }
        if j > pos {
            let t = b.substring_char(pos, j).to_owned();
            let ghost tv = t@;
            out.push(PatternElement::Text(t));
            proof {
                assert(elems_model(out@) =~= done0.push(ElemModel::Text(tv)));
            }
        }
        match take_placeable(b, j, n) {
            Err(pe) => {
                return Err(pe);
            },
            Ok(pr) => {
                let (name, next) = pr;
                let ghost nv = name@;
                let ghost mid0 = elems_model(out@);
                out.push(PatternElement::Placeable(name));
                proof {
                    assert(elems_model(out@) =~= mid0.push(ElemModel::Var(nv)));
                    let prefix = (if j > pos {
                        seq![
                            ElemModel::Text(b@.subrange(pos as int, j as int)),
                            ElemModel::Var(nv),
                        ]
                    } else {
                        seq![ElemModel::Var(nv)]
                    });
                    assert(elems_model(out@) =~= done0 + prefix);
                    if parse_elems(b@, next as int) is Ok {
                        let rest = parse_elems(b@, next as int)->Ok_0;
                        assert(parse_elems(b@, pos as int) == Ok::<
                            Seq<ElemModel>,
                            ParseErrModel,
                        >(prefix + rest));
                        assert(done0 + (prefix + rest) =~= (done0 + prefix) + rest);
                    }
                }
                pos = next;
            },
        }
    }
    Ok(out)
}

// ---------------------------------------------------------------------------
// The line stage: raw messages with unparsed bodies.
// ---------------------------------------------------------------------------

/// Model of one message as the line stage leaves it: its id, the raw text of
/// its value (continuations joined), and its attributes' raw texts.
#[verifier::ext_equal]
pub struct RawMsg {
    pub id: Seq<char>,
    pub value: Seq<char>,
    pub attrs: Seq<(Seq<char>, Seq<char>)>,
}

/// Some message in `acc` already carries `id`.
pub open spec fn raw_has_id(acc: Seq<RawMsg>, id: Seq<char>) -> bool {
    exists|k: int| 0 <= k < acc.len() && #[trigger] acc[k].id == id
}

/// Some attribute in `attrs` already carries `id`.
pub open spec fn attr_has_id(attrs: Seq<(Seq<char>, Seq<char>)>, id: Seq<char>) -> bool {
    exists|k: int| 0 <= k < attrs.len() && #[trigger] attrs[k].0 == id
}

/// Message ids in `acc` are pairwise distinct.
pub open spec fn raw_unique(acc: Seq<RawMsg>) -> bool {
    forall|i: int, j: int|
        0 <= i < j < acc.len() ==> #[trigger] acc[i].id != #[trigger] acc[j].id
}

/// Attribute ids in `attrs` are pairwise distinct.
pub open spec fn attrs_unique(attrs: Seq<(Seq<char>, Seq<char>)>) -> bool {
    forall|i: int, j: int|
        0 <= i < j < attrs.len() ==> (#[trigger] attrs[i]).0 != (#[trigger] attrs[j]).0
}

/// Every collected message keeps its attribute ids pairwise distinct.
pub open spec fn raw_attrs_all_unique(acc: Seq<RawMsg>) -> bool {
    forall|k: int| 0 <= k < acc.len() ==> attrs_unique((#[trigger] acc[k]).attrs)
}

/// Every attribute id in `attrs` conforms to the identifier grammar.
pub open spec fn attrs_ids_valid(attrs: Seq<(Seq<char>, Seq<char>)>) -> bool {
    forall|a: int| 0 <= a < attrs.len() ==> is_valid_ident((#[trigger] attrs[a]).0)
}

/// Every collected id, of a message or of an attribute, conforms to the
/// identifier grammar.
pub open spec fn raw_ids_valid(acc: Seq<RawMsg>) -> bool {
    forall|k: int|
        0 <= k < acc.len() ==> is_valid_ident((#[trigger] acc[k]).id) && attrs_ids_valid(
            acc[k].attrs,
        )
}

/// A definition line `identifier = body` starts a new message; a malformed
/// identifier or a missing `=` rejects the line, a repeated id the resource.
pub open spec fn step_def(acc: Seq<RawMsg>, l: Seq<char>) -> Result<Seq<RawMsg>, ParseErrModel> {
    let e = ident_run_end(l, 0);
    let q = skip_ws(l, e);
    if e == 0 || !is_ident_start(l[0]) {
        Err(perr(ParseErrorKind::InvalidIdentifier, l))
    } else if q >= l.len() || l[q] != '=' {
        Err(perr(ParseErrorKind::InvalidIdentifier, l))
    } else {
        let id = l.subrange(0, e);
        let body = l.subrange(skip_ws(l, q + 1), l.len() as int);
        if raw_has_id(acc, id) {
            Err(perr(ParseErrorKind::DuplicateMessageId, id))
        } else {
            Ok(acc.push(RawMsg { id, value: body, attrs: Seq::empty() }))
        }
    }
}

/// An attribute line `.identifier = body`, its `.` at `j`, attaches to the
/// message before it; ids are unique per message.
pub open spec fn step_attr(acc: Seq<RawMsg>, l: Seq<char>, j: int) -> Result<
    Seq<RawMsg>,
    ParseErrModel,
> {
    if acc.len() == 0 {
        Err(perr(ParseErrorKind::UnattachedLine, l))
    } else {
        let s0 = j + 1;
        let e = ident_run_end(l, s0);
        let q = skip_ws(l, e);
        if e == s0 || !is_ident_start(l[s0]) {
            Err(perr(ParseErrorKind::InvalidIdentifier, l))
        } else if q >= l.len() || l[q] != '=' {
            Err(perr(ParseErrorKind::InvalidIdentifier, l))
        } else {
            let id = l.subrange(s0, e);
            let body = l.subrange(skip_ws(l, q + 1), l.len() as int);
            let m = acc.last();
            if attr_has_id(m.attrs, id) {
                Err(perr(ParseErrorKind::DuplicateAttributeId, id))
            } else {
                Ok(
                    acc.update(
                        acc.len() - 1,
                        RawMsg { id: m.id, value: m.value, attrs: m.attrs.push((id, body)) },
                    ),
                )
            }
        }
    }
}

/// An indented continuation line, its first non-whitespace character at `j`,
/// extends the pattern body most recently begun: the last attribute's if the
/// message before it has attributes, else that message's value.
pub open spec fn step_cont(acc: Seq<RawMsg>, l: Seq<char>, j: int) -> Result<
    Seq<RawMsg>,
    ParseErrModel,
> {
    if acc.len() == 0 {
        Err(perr(ParseErrorKind::UnattachedLine, l))
    } else {
        let content = l.subrange(j, l.len() as int);
        let m = acc.last();
        let m2 = if m.attrs.len() == 0 {
            RawMsg { id: m.id, value: join_cont(m.value, content), attrs: m.attrs }
        } else {
            let a = m.attrs.last();
            RawMsg {
                id: m.id,
                value: m.value,
                attrs: m.attrs.update(m.attrs.len() - 1, (a.0, join_cont(a.1, content))),
            }
        };
        Ok(acc.update(acc.len() - 1, m2))
    }
}

/// What one line does to the messages collected so far. Blank lines and
/// comment lines (`#` in column zero) contribute nothing; a line whose first
/// non-whitespace character is `.` is an attribute; any other indented line
/// is a continuation; anything else must be a definition line.
pub open spec fn step_line(acc: Seq<RawMsg>, l: Seq<char>) -> Result<Seq<RawMsg>, ParseErrModel> {
    let j = skip_ws(l, 0);
    if j >= l.len() {
        Ok(acc)
    } else if l[0] == '#' {
        Ok(acc)
    } else if l[j] == '.' {
        step_attr(acc, l, j)
    } else if j > 0 {
        step_cont(acc, l, j)
    } else {
        step_def(acc, l)
    }
}

/// The line stage folded over `lines`, starting from `acc`.
pub open spec fn parse_raw_from(acc: Seq<RawMsg>, lines: Seq<Seq<char>>) -> Result<
    Seq<RawMsg>,
    ParseErrModel,
>
    decreases lines.len(),
{
    if lines.len() == 0 {
        Ok(acc)
    } else {
        match step_line(acc, lines[0]) {
            Err(e) => Err(e),
            Ok(a2) => parse_raw_from(a2, lines.drop_first()),
        }
    }
}

/// One line keeps message ids pairwise distinct.
proof fn lemma_step_line_unique(acc: Seq<RawMsg>, l: Seq<char>)
    requires
        raw_unique(acc),
        step_line(acc, l) is Ok,
    ensures
        raw_unique(step_line(acc, l)->Ok_0),
{
    let a2 = step_line(acc, l)->Ok_0;
    let j = skip_ws(l, 0);
    if j >= l.len() || l[0] == '#' {
    } else if l[j] == '.' || j > 0 {
        assert(a2.len() == acc.len());
        assert(forall|k: int| 0 <= k < a2.len() ==> #[trigger] a2[k].id == acc[k].id);
    } else {
        let e = ident_run_end(l, 0);
        let id = l.subrange(0, e);
        assert(a2 == acc.push(RawMsg { id, value: a2.last().value, attrs: a2.last().attrs }));
        assert(forall|k: int| 0 <= k < acc.len() ==> #[trigger] a2[k].id == acc[k].id);
        assert(forall|k: int| 0 <= k < acc.len() ==> acc[k].id != id) by {
            assert(!raw_has_id(acc, id));
        }
    }
}

/// One line keeps every message's attribute ids pairwise distinct.
proof fn lemma_step_line_attrs_unique(acc: Seq<RawMsg>, l: Seq<char>)
    requires
        raw_attrs_all_unique(acc),
        step_line(acc, l) is Ok,
    ensures
        raw_attrs_all_unique(step_line(acc, l)->Ok_0),
{
    let a2 = step_line(acc, l)->Ok_0;
    let j = skip_ws(l, 0);
    if j >= l.len() || l[0] == '#' {
    } else if l[j] == '.' {
        let m = acc.last();
        let s0 = j + 1;
        let e = ident_run_end(l, s0);
        let id = l.subrange(s0, e);
        let na = a2.last().attrs;
        assert(attrs_unique(na)) by {
            assert(na == m.attrs.push((id, l.subrange(skip_ws(l, skip_ws(l, e) + 1), l.len() as int))));
            assert(attrs_unique(m.attrs));
            assert(forall|k: int| 0 <= k < m.attrs.len() ==> (#[trigger] m.attrs[k]).0 != id) by {
                assert(!attr_has_id(m.attrs, id));
            }
        }
        assert(forall|k: int| 0 <= k < a2.len() - 1 ==> #[trigger] a2[k] == acc[k]);
    } else if j > 0 {
        let m = acc.last();
        let na = a2.last().attrs;
        assert(attrs_unique(na)) by {
            assert(attrs_unique(m.attrs));
            assert(na.len() == m.attrs.len());
            assert(forall|k: int| 0 <= k < na.len() ==> (#[trigger] na[k]).0 == m.attrs[k].0);
        }
        assert(forall|k: int| 0 <= k < a2.len() - 1 ==> #[trigger] a2[k] == acc[k]);
    } else {
        assert(forall|k: int| 0 <= k < acc.len() ==> #[trigger] a2[k] == acc[k]);
        assert(a2.last().attrs.len() == 0);
    }
}

// ---------------------------------------------------------------------------
// Executable line stage.
// ---------------------------------------------------------------------------

/// One message as the line stage collects it, bodies still unparsed.
struct RawMsgE {
    id: String,
    value: String,
    attrs: Vec<(String, String)>,
}

/// The model of a raw attribute list.
spec fn raw_attrs_model(s: Seq<(String, String)>) -> Seq<(Seq<char>, Seq<char>)> {
    s.map_values(|p: (String, String)| (p.0@, p.1@))
}

/// The model of one collected message.
spec fn raw_model_one(m: RawMsgE) -> RawMsg {
    RawMsg { id: m.id@, value: m.value@, attrs: raw_attrs_model(m.attrs@) }
}

/// The model of the collected state.
spec fn raw_model(s: Seq<RawMsgE>) -> Seq<RawMsg> {
    s.map_values(|m: RawMsgE| raw_model_one(m))
}

/// Handles a definition line.
#[verifier::loop_isolation(false)]
fn do_def(state: &mut Vec<RawMsgE>, line: &str, n: usize) -> (r: Result<(), ParseError>)
    requires
        n == line@.len(),
    ensures
        match step_def(raw_model(old(state)@), line@) {
            Ok(a) => r is Ok && raw_model(final(state)@) == a,
            Err(e) => r is Err && r->Err_0@ == e,
        },
{
    let ghost rm0 = raw_model(state@);
    let e = scan_ident(line, 0, n);
    if e == 0 {
        return Err(line_err(line, ParseErrorKind::InvalidIdentifier));
    }
    if !ident_start_char(line.get_char(0)) {
        return Err(line_err(line, ParseErrorKind::InvalidIdentifier));
    }
    let q = scan_ws(line, e, n);
    if q == n {
        return Err(line_err(line, ParseErrorKind::InvalidIdentifier));
    }
    if line.get_char(q) != '=' {
        return Err(line_err(line, ParseErrorKind::InvalidIdentifier));
    }
    let id = line.substring_char(0, e).to_owned();
    let bstart = scan_ws(line, q + 1, n);
    let body = line.substring_char(bstart, n).to_owned();
    let ghost idv = id@;
    let ghost bodyv = body@;
    let len = state.len();
    let mut k: usize = 0;
    while k < len
        invariant
            k <= len,
            len == state.len(),
            rm0 == raw_model(state@),
            idv == id@,
            forall|m: int| 0 <= m < k ==> #[trigger] rm0[m].id != idv,
        decreases len - k,
    {
        if state[k].id == id {
            proof {
                assert(rm0[k as int].id == idv);
                assert(raw_has_id(rm0, idv));
            }
            return Err(ParseError { kind: ParseErrorKind::DuplicateMessageId, detail: id });
        }
        k = k + 1;
    }
    proof {
        assert(!raw_has_id(rm0, idv));
    }
    state.push(RawMsgE { id, value: body, attrs: Vec::new() });
    proof {
        assert(raw_model(state@) =~~= rm0.push(
            RawMsg { id: idv, value: bodyv, attrs: Seq::empty() },
        ));
    }
    Ok(())
}

/// Handles an attribute line, its `.` at `j`.
#[verifier::loop_isolation(false)]
fn do_attr(state: &mut Vec<RawMsgE>, line: &str, j: usize, n: usize) -> (r: Result<
    (),
    ParseError,
>)
    requires
        j < n,
        n == line@.len(),
    ensures
        match step_attr(raw_model(old(state)@), line@, j as int) {
            Ok(a) => r is Ok && raw_model(final(state)@) == a,
            Err(e) => r is Err && r->Err_0@ == e,
        },
{
    let ghost rm0 = raw_model(state@);
    if state.len() == 0 {
        return Err(line_err(line, ParseErrorKind::UnattachedLine));
    }
    let s0 = j + 1;
    let e = scan_ident(line, s0, n);
    if e == s0 {
        return Err(line_err(line, ParseErrorKind::InvalidIdentifier));
    }
    if !ident_start_char(line.get_char(s0)) {
        return Err(line_err(line, ParseErrorKind::InvalidIdentifier));
    }
    let q = scan_ws(line, e, n);
    if q == n {
        return Err(line_err(line, ParseErrorKind::InvalidIdentifier));
    }
    if line.get_char(q) != '=' {
        return Err(line_err(line, ParseErrorKind::InvalidIdentifier));
    }
    let id = line.substring_char(s0, e).to_owned();
    let bstart = scan_ws(line, q + 1, n);
    let body = line.substring_char(bstart, n).to_owned();
    let ghost idv = id@;
    let ghost bodyv = body@;
    let li = state.len() - 1;
    let ghost lastm = rm0.last();
    let alen = state[li].attrs.len();
    let mut k: usize = 0;
    while k < alen
        invariant
            k <= alen,
            state.len() == rm0.len(),
            li == state.len() - 1,
            rm0 == raw_model(state@),
            alen == state[li as int].attrs.len(),
            lastm == rm0.last(),
            idv == id@,
            forall|m: int| 0 <= m < k ==> #[trigger] lastm.attrs[m].0 != idv,
        decreases alen - k,
    {
        if state[li].attrs[k].0 == id {
            proof {
                assert(lastm.attrs[k as int].0 == idv);
                assert(attr_has_id(lastm.attrs, idv));
            }
            return Err(ParseError { kind: ParseErrorKind::DuplicateAttributeId, detail: id });
        }
        k = k + 1;
    }
    proof {
        assert(!attr_has_id(lastm.attrs, idv));
    }
    let mut m = state.pop().unwrap();
    let ghost ma0 = raw_attrs_model(m.attrs@);
    m.attrs.push((id, body));
    state.push(m);
    proof {
        assert(raw_attrs_model(m.attrs@) =~~= ma0.push((idv, bodyv)));
        assert(raw_model(state@) =~~= rm0.update(
            rm0.len() - 1,
            RawMsg { id: lastm.id, value: lastm.value, attrs: lastm.attrs.push((idv, bodyv)) },
        ));
    }
    Ok(())
}

/// Handles a continuation line, its first non-whitespace character at `j`.
fn do_cont(state: &mut Vec<RawMsgE>, line: &str, j: usize, n: usize) -> (r: Result<
    (),
    ParseError,
>)
    requires
        j < n,
        n == line@.len(),
    ensures
        match step_cont(raw_model(old(state)@), line@, j as int) {
            Ok(a) => r is Ok && raw_model(final(state)@) == a,
            Err(e) => r is Err && r->Err_0@ == e,
        },
{
    let ghost rm0 = raw_model(state@);
    if state.len() == 0 {
        return Err(line_err(line, ParseErrorKind::UnattachedLine));
    }
    let content = line.substring_char(j, n);
    let ghost cv = content@;
    let ghost lastm = rm0.last();
    let mut m = state.pop().unwrap();
    if m.attrs.len() == 0 {
        let ghost v0 = m.value@;
        if m.value.as_str().unicode_len() == 0 {
            m.value = content.to_owned();
        } else {
            m.value.append("\n");
            m.value.append(content);
            proof {
                reveal_strlit("\n");
                assert("\n"@ =~= seq!['\n']);
            }
        }
        proof {
            assert(m.value@ == join_cont(v0, cv));
        }
        state.push(m);
        proof {
            assert(raw_model(state@) =~~= rm0.update(
                rm0.len() - 1,
                RawMsg { id: lastm.id, value: join_cont(lastm.value, cv), attrs: lastm.attrs },
            ));
        }
    } else {
        let mut a = m.attrs.pop().unwrap();
        let ghost a0 = (a.0@, a.1@);
        let ghost ma0 = raw_attrs_model(m.attrs@);
        if a.1.as_str().unicode_len() == 0 {
            a.1 = content.to_owned();
        } else {
            a.1.append("\n");
            a.1.append(content);
            proof {
                reveal_strlit("\n");
                assert("\n"@ =~= seq!['\n']);
            }
        }
        proof {
            assert(a.1@ == join_cont(a0.1, cv));
        }
        m.attrs.push(a);
        state.push(m);
        proof {
            assert(lastm.attrs =~~= ma0.push(a0));
            assert(raw_attrs_model(m.attrs@) =~~= ma0.push((a0.0, join_cont(a0.1, cv))));
            assert(raw_attrs_model(m.attrs@) =~~= lastm.attrs.update(
                lastm.attrs.len() - 1,
                (a0.0, join_cont(a0.1, cv)),
            ));
            assert(raw_model(state@) =~~= rm0.update(
                rm0.len() - 1,
                RawMsg {
                    id: lastm.id,
                    value: lastm.value,
                    attrs: lastm.attrs.update(
                        lastm.attrs.len() - 1,
                        (a0.0, join_cont(a0.1, cv)),
                    ),
                },
            ));
        }
    }
    Ok(())
}

/// Applies one line to the collected state.
fn do_line(state: &mut Vec<RawMsgE>, line: &str) -> (r: Result<(), ParseError>)
    ensures
        match step_line(raw_model(old(state)@), line@) {
            Ok(a) => r is Ok && raw_model(final(state)@) == a,
            Err(e) => r is Err && r->Err_0@ == e,
        },
{
    let n = line.unicode_len();
    let j = scan_ws(line, 0, n);
    if j == n {
        return Ok(());
    }
    if line.get_char(0) == '#' {
        return Ok(());
    }
    if line.get_char(j) == '.' {
        return do_attr(state, line, j, n);
    }
    if j > 0 {
        return do_cont(state, line, j, n);
    }
    do_def(state, line, n)
}

/// Runs the line stage over the whole text.
fn parse_raw_lines(text: &str) -> (r: Result<Vec<RawMsgE>, ParseError>)
    ensures
        match parse_raw_from(Seq::empty(), split_on(text@, '\n')) {
            Ok(raw) => {
                &&& r is Ok
                &&& raw_model(r->Ok_0@) == raw
                &&& raw_unique(raw)
                &&& raw_attrs_all_unique(raw)
                &&& raw_ids_valid(raw)
            },
            Err(e) => r is Err && r->Err_0@ == e,
        },
{
    let n = text.unicode_len();
    let mut state: Vec<RawMsgE> = Vec::new();
    let mut pos: usize = 0;
    proof {
        assert(raw_model(state@) =~= Seq::<RawMsg>::empty());
    }
    loop
        invariant_except_break
            pos <= n,
            n == text@.len(),
            parse_raw_from(Seq::empty(), split_on(text@, '\n')) == parse_raw_from(
                raw_model(state@),
                split_from(text@, pos as int, '\n'),
            ),
            raw_unique(raw_model(state@)),
            raw_attrs_all_unique(raw_model(state@)),
            raw_ids_valid(raw_model(state@)),
        ensures
            parse_raw_from(Seq::empty(), split_on(text@, '\n')) == Ok::<
                Seq<RawMsg>,
                ParseErrModel,
            >(raw_model(state@)),
            raw_unique(raw_model(state@)),
            raw_attrs_all_unique(raw_model(state@)),
            raw_ids_valid(raw_model(state@)),
        decreases n - pos,
    {
        let j = scan_sep(text, pos, n, '\n');
        let line = text.substring_char(pos, j);
        let ghost lv = line@;
        let ghost acc0 = raw_model(state@);
        let ghost rest_lines = split_from(text@, pos as int, '\n');
        proof {
            if j < n {
                assert(rest_lines == seq![lv] + split_from(text@, j + 1, '\n'));
                assert(rest_lines[0] == lv);
                assert(rest_lines.drop_first() =~= split_from(text@, j + 1, '\n'));
            } else {
                assert(rest_lines == seq![lv]);
                assert(rest_lines[0] == lv);
                assert(rest_lines.drop_first() =~= Seq::<Seq<char>>::empty());
            }
        }
        match do_line(&mut state, line) {
            Err(pe) => {
                return Err(pe);
            },
            Ok(()) => {},
        }
        proof {
            lemma_step_line_unique(acc0, lv);
            lemma_step_line_attrs_unique(acc0, lv);
            lemma_step_line_ids_valid(acc0, lv);
        }
        if j == n {
            proof {
                assert(parse_raw_from(step_line(acc0, lv)->Ok_0, Seq::<Seq<char>>::empty())
                    == Ok::<Seq<RawMsg>, ParseErrModel>(step_line(acc0, lv)->Ok_0));
            }
            break ;
        }
        pos = j + 1;
    }
    Ok(state)
}

// ---------------------------------------------------------------------------
// The build stage: pattern bodies parsed into elements.
// ---------------------------------------------------------------------------

/// The attribute bodies of one message, each parsed into its elements.
pub open spec fn build_attrs(attrs: Seq<(Seq<char>, Seq<char>)>) -> Result<
    Seq<(Seq<char>, Seq<ElemModel>)>,
    ParseErrModel,
>
    decreases attrs.len(),
{
    if attrs.len() == 0 {
        Ok(Seq::empty())
    } else {
        match build_attrs(attrs.drop_last()) {
            Err(e) => Err(e),
            Ok(done) => match parse_elems(attrs.last().1, 0) {
                Err(e) => Err(e),
                Ok(p) => Ok(done.push((attrs.last().0, p))),
            },
        }
    }
}

/// One raw message with its value and attribute bodies parsed.
pub open spec fn build_msg(r: RawMsg) -> Result<MsgModel, ParseErrModel> {
    match parse_elems(r.value, 0) {
        Err(e) => Err(e),
        Ok(v) => match build_attrs(r.attrs) {
            Err(e) => Err(e),
            Ok(ats) => Ok(MsgModel { id: r.id, value: v, attrs: ats }),
        },
    }
}

/// All raw messages built, in order; the first failure rejects the resource.
pub open spec fn build_msgs(raw: Seq<RawMsg>) -> Result<Seq<MsgModel>, ParseErrModel>
    decreases raw.len(),
{
    if raw.len() == 0 {
        Ok(Seq::empty())
    } else {
        match build_msgs(raw.drop_last()) {
            Err(e) => Err(e),
            Ok(done) => match build_msg(raw.last()) {
                Err(e) => Err(e),
                Ok(m) => Ok(done.push(m)),
            },
        }
    }
}

/// What parsing the whole resource text yields: its messages in definition
/// order, or the first hard failure; all or nothing.
pub open spec fn spec_parse(text: Seq<char>) -> Result<Seq<MsgModel>, ParseErrModel> {
    match parse_raw_from(Seq::empty(), split_on(text, '\n')) {
        Err(e) => Err(e),
        Ok(raw) => build_msgs(raw),
    }
}

/// A failure on an attribute prefix settles the whole list.
proof fn lemma_build_attrs_err(attrs: Seq<(Seq<char>, Seq<char>)>, k: int)
    requires
        0 <= k <= attrs.len(),
        build_attrs(attrs.take(k)) is Err,
    ensures
        build_attrs(attrs) == build_attrs(attrs.take(k)),
    decreases attrs.len() - k,
{
    if k == attrs.len() {
        assert(attrs.take(k) =~= attrs);
    } else {
        assert(attrs.take(k + 1).drop_last() =~= attrs.take(k));
        assert(attrs.take(k + 1).last() == attrs[k]);
        lemma_build_attrs_err(attrs, k + 1);
    }
}

/// A failure on a message prefix settles the whole list.
proof fn lemma_build_msgs_err(raw: Seq<RawMsg>, k: int)
    requires
        0 <= k <= raw.len(),
        build_msgs(raw.take(k)) is Err,
    ensures
        build_msgs(raw) == build_msgs(raw.take(k)),
    decreases raw.len() - k,
{
    if k == raw.len() {
        assert(raw.take(k) =~= raw);
    } else {
        assert(raw.take(k + 1).drop_last() =~= raw.take(k));
        assert(raw.take(k + 1).last() == raw[k]);
        lemma_build_msgs_err(raw, k + 1);
    }
}

/// One line keeps every collected id conforming to the identifier grammar.
proof fn lemma_step_line_ids_valid(acc: Seq<RawMsg>, l: Seq<char>)
    requires
        raw_ids_valid(acc),
        step_line(acc, l) is Ok,
    ensures
        raw_ids_valid(step_line(acc, l)->Ok_0),
{
    let a2 = step_line(acc, l)->Ok_0;
    let j = skip_ws(l, 0);
    if j >= l.len() || l[0] == '#' {
    } else if l[j] == '.' {
        let m = acc.last();
        let s0 = j + 1;
        let e = ident_run_end(l, s0);
        lemma_ident_run_end_bounds(l, s0);
        let id = l.subrange(s0, e);
        crate::text::lemma_run_is_valid_ident(l, s0, e);
        let na = a2.last().attrs;
        assert(attrs_ids_valid(na)) by {
            assert(na == m.attrs.push(
                (id, l.subrange(skip_ws(l, skip_ws(l, e) + 1), l.len() as int)),
            ));
            assert(attrs_ids_valid(m.attrs));
        }
        assert(forall|k: int| 0 <= k < a2.len() - 1 ==> #[trigger] a2[k] == acc[k]);
        assert(a2.last().id == m.id);
    } else if j > 0 {
        let m = acc.last();
        let na = a2.last().attrs;
        assert(attrs_ids_valid(na)) by {
            assert(attrs_ids_valid(m.attrs));
            assert(na.len() == m.attrs.len());
            assert(forall|k: int| 0 <= k < na.len() ==> (#[trigger] na[k]).0 == m.attrs[k].0);
        }
        assert(forall|k: int| 0 <= k < a2.len() - 1 ==> #[trigger] a2[k] == acc[k]);
        assert(a2.last().id == m.id);
    } else {
        let e = ident_run_end(l, 0);
        lemma_ident_run_end_bounds(l, 0);
        crate::text::lemma_run_is_valid_ident(l, 0, e);
        assert(forall|k: int| 0 <= k < acc.len() ==> #[trigger] a2[k] == acc[k]);
        assert(a2.last().attrs.len() == 0);
    }
}

/// Building keeps each attribute's id, in order.
proof fn lemma_build_attrs_names(attrs: Seq<(Seq<char>, Seq<char>)>)
    requires
        build_attrs(attrs) is Ok,
    ensures
        build_attrs(attrs)->Ok_0.len() == attrs.len(),
        forall|k: int|
            0 <= k < attrs.len() ==> (#[trigger] build_attrs(attrs)->Ok_0[k]).0 == attrs[k].0,
    decreases attrs.len(),
{
    if attrs.len() > 0 {
        lemma_build_attrs_names(attrs.drop_last());
    }
}

/// Building keeps every message's attribute ids pairwise distinct.
proof fn lemma_build_msgs_attrs_unique(raw: Seq<RawMsg>)
    requires
        raw_attrs_all_unique(raw),
        build_msgs(raw) is Ok,
    ensures
        build_msgs(raw)->Ok_0.len() == raw.len(),
        forall|k: int|
            0 <= k < raw.len() ==> crate::ast::msg_attrs_unique(
                #[trigger] build_msgs(raw)->Ok_0[k],
            ),
    decreases raw.len(),
{
    if raw.len() > 0 {
        assert(raw_attrs_all_unique(raw.drop_last())) by {
            assert(forall|k: int|
                0 <= k < raw.len() - 1 ==> #[trigger] raw.drop_last()[k] == raw[k]);
        }
        lemma_build_msgs_attrs_unique(raw.drop_last());
        let m = raw.last();
        lemma_build_attrs_names(m.attrs);
        assert(attrs_unique(m.attrs));
        assert(crate::ast::msg_attrs_unique(build_msg(m)->Ok_0));
    }
}

/// Building keeps every id conforming to the identifier grammar.
proof fn lemma_build_msgs_ids_valid(raw: Seq<RawMsg>)
    requires
        raw_ids_valid(raw),
        build_msgs(raw) is Ok,
    ensures
        build_msgs(raw)->Ok_0.len() == raw.len(),
        forall|k: int|
            0 <= k < raw.len() ==> crate::ast::msg_ids_valid(#[trigger] build_msgs(raw)->Ok_0[k]),
    decreases raw.len(),
{
    if raw.len() > 0 {
        assert(raw_ids_valid(raw.drop_last())) by {
            assert(forall|k: int|
                0 <= k < raw.len() - 1 ==> #[trigger] raw.drop_last()[k] == raw[k]);
        }
        lemma_build_msgs_ids_valid(raw.drop_last());
        let m = raw.last();
        lemma_build_attrs_names(m.attrs);
        assert(is_valid_ident(m.id));
        assert(attrs_ids_valid(m.attrs));
        assert(crate::ast::msg_ids_valid(build_msg(m)->Ok_0));
    }
}

/// Builds one message from its raw form.
#[verifier::loop_isolation(false)]
fn build_one(m: &RawMsgE) -> (r: Result<MessageDef, ParseError>)
    ensures
        match build_msg(raw_model_one(*m)) {
            Ok(mm) => r is Ok && r->Ok_0@ == mm,
            Err(e) => r is Err && r->Err_0@ == e,
        },
{
    let ghost rm = raw_model_one(*m);
    let value = match parse_pattern_body(m.value.as_str()) {
        Err(pe) => {
            return Err(pe);
        },
        Ok(v) => v,
    };
    let alen = m.attrs.len();
    let mut attrs: Vec<(String, Vec<PatternElement>)> = Vec::new();
    let mut k: usize = 0;
    proof {
        assert(crate::ast::attrs_model(attrs@) =~= Seq::<(Seq<char>, Seq<ElemModel>)>::empty());
        assert(rm.attrs.take(0) =~= Seq::<(Seq<char>, Seq<char>)>::empty());
    }
    while k < alen
        invariant
            k <= alen,
            build_attrs(rm.attrs.take(k as int)) == Ok::<
                Seq<(Seq<char>, Seq<ElemModel>)>,
                ParseErrModel,
            >(crate::ast::attrs_model(attrs@)),
        decreases alen - k,
    {
        let ghost done0 = crate::ast::attrs_model(attrs@);
        proof {
            assert(rm.attrs.take(k + 1).drop_last() =~= rm.attrs.take(k as int));
            assert(rm.attrs.take(k + 1).last() == rm.attrs[k as int]);
        }
        let parsed = match parse_pattern_body(m.attrs[k].1.as_str()) {
            Err(pe) => {
                proof {
                    lemma_build_attrs_err(rm.attrs, k + 1);
                }
                return Err(pe);
            },
            Ok(p) => p,
        };
        let aname = m.attrs[k].0.clone();
        let ghost av = aname@;
        let ghost pv = elems_model(parsed@);
        attrs.push((aname, parsed));
        proof {
            assert(crate::ast::attrs_model(attrs@) =~= done0.push((av, pv)));
        }
        k = k + 1;
    }
    proof {
        assert(rm.attrs.take(alen as int) =~= rm.attrs);
    }
    Ok(MessageDef { id: m.id.clone(), value, attributes: attrs })
}

/// Parses one resource text into its messages. All or nothing: either the
/// whole text conforms to the grammar and every message is returned, with
/// ids pairwise distinct, or the grammar's error is returned and nothing
/// else; `spec_parse` says which, and what, exactly.
pub fn parse(text: &str) -> (r: Result<Resource, ParseError>)
    ensures
        match spec_parse(text@) {
            Ok(m) => {
                &&& r is Ok
                &&& r->Ok_0@ == m
                &&& crate::ast::unique_ids(m)
                &&& forall|k: int|
                    0 <= k < m.len() ==> crate::ast::msg_attrs_unique(#[trigger] m[k])
                &&& forall|k: int|
                    0 <= k < m.len() ==> crate::ast::msg_ids_valid(#[trigger] m[k])
            },
            Err(e) => r is Err && r->Err_0@ == e,
        },
{
    let state = match parse_raw_lines(text) {
        Err(pe) => {
            return Err(pe);
        },
        Ok(s) => s,
    };
    let ghost raw = raw_model(state@);
    let len = state.len();
    let mut msgs: Vec<MessageDef> = Vec::new();
    let mut i: usize = 0;
    proof {
        assert(crate::ast::msgs_model(msgs@) =~= Seq::<MsgModel>::empty());
        assert(raw.take(0) =~= Seq::<RawMsg>::empty());
    }
    while i < len
        invariant
            i <= len,
            len == state.len(),
            raw == raw_model(state@),
            parse_raw_from(Seq::empty(), split_on(text@, '\n')) == Ok::<
                Seq<RawMsg>,
                ParseErrModel,
            >(raw),
            raw_unique(raw),
            raw_attrs_all_unique(raw),
            raw_ids_valid(raw),
            msgs@.len() == i,
            build_msgs(raw.take(i as int)) == Ok::<Seq<MsgModel>, ParseErrModel>(
                crate::ast::msgs_model(msgs@),
            ),
            forall|k: int|
                0 <= k < i ==> #[trigger] crate::ast::msgs_model(msgs@)[k].id == raw[k].id,
        decreases len - i,
    {
        let ghost done0 = crate::ast::msgs_model(msgs@);
        proof {
            assert(raw.take(i + 1).drop_last() =~= raw.take(i as int));
            assert(raw.take(i + 1).last() == raw[i as int]);
        }
        let built = match build_one(&state[i]) {
            Err(pe) => {
                proof {
                    lemma_build_msgs_err(raw, i + 1);
                }
                return Err(pe);
            },
            Ok(b) => b,
        };
        let ghost bv = built@;
        msgs.push(built);
        proof {
            assert(crate::ast::msgs_model(msgs@) =~= done0.push(bv));
        }
        i = i + 1;
    }
    proof {
        assert(raw.take(len as int) =~= raw);
        let mm = crate::ast::msgs_model(msgs@);
        assert forall|a: int, b: int| 0 <= a < b < mm.len() implies #[trigger] mm[a].id
            != #[trigger] mm[b].id by {
            assert(mm[a].id == raw[a].id);
            assert(mm[b].id == raw[b].id);
        }
        lemma_build_msgs_attrs_unique(raw);
        lemma_build_msgs_ids_valid(raw);
    }
    Ok(Resource { messages: msgs })
}

} // verus!

