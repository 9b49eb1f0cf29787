//! The pattern resolver: renders a pattern against an argument mapping,
//! substituting placeables and collecting non-fatal problems, never aborting.

use vstd::prelude::*;
use vstd::string::*;
use crate::args::{arg_lookup, ArgMap};
use crate::ast::{elems_model, ElemModel, PatternElement};
use crate::errors::{errs_model, ResolutionErrModel, ResolutionError, ResolutionErrorKind};

verus! {

/// The fallback marker written in place of a missing argument: the reference
/// in its original delimiter form, `{$name}`.
pub open spec fn marker(name: Seq<char>) -> Seq<char> {
    seq!['{', '$'] + name + seq!['}']
}

/// The text one element contributes: a text run verbatim; a placeable's
/// argument value, or its fallback marker when the argument is absent.
pub open spec fn elem_text(e: ElemModel, args: Seq<(Seq<char>, Seq<char>)>) -> Seq<char> {
    match e {
        ElemModel::Text(t) => t,
        ElemModel::Var(name) => match arg_lookup(args, name) {
            Some(v) => v,
            None => marker(name),
        },
    }
}

/// The problems one element contributes: one `MissingArgument` for a
/// placeable whose argument is absent, nothing otherwise.
pub open spec fn elem_errs(e: ElemModel, args: Seq<(Seq<char>, Seq<char>)>) -> Seq<
    ResolutionErrModel,
> {
    match e {
        ElemModel::Text(_) => Seq::empty(),
        ElemModel::Var(name) => match arg_lookup(args, name) {
            Some(_) => Seq::empty(),
            None => seq![
                (ResolutionErrModel { kind: ResolutionErrorKind::MissingArgument, detail: name }),
            ],
        },
    }
}

/// The rendered text of a pattern: element contributions in order.
pub open spec fn resolve_text(elems: Seq<ElemModel>, args: Seq<(Seq<char>, Seq<char>)>) -> Seq<
    char,
>
    decreases elems.len(),
{
    if elems.len() == 0 {
        Seq::empty()
    } else {
        elem_text(elems[0], args) + resolve_text(elems.drop_first(), args)
    }
}

/// The problems collected over a pattern, in element order.
pub open spec fn resolve_errs(elems: Seq<ElemModel>, args: Seq<(Seq<char>, Seq<char>)>) -> Seq<
    ResolutionErrModel,
>
    decreases elems.len(),
{
    if elems.len() == 0 {
        Seq::empty()
    } else {
        elem_errs(elems[0], args) + resolve_errs(elems.drop_first(), args)
    }
}

/// What resolving a pattern yields: its rendered text and its problems; a
/// pattern of zero elements yields empty text and one `EmptyPattern` problem
/// naming `owner`, the message the pattern belongs to.
pub open spec fn resolve_model(
    elems: Seq<ElemModel>,
    args: Seq<(Seq<char>, Seq<char>)>,
    owner: Seq<char>,
) -> (Seq<char>, Seq<ResolutionErrModel>) {
    if elems.len() == 0 {
        (
            Seq::empty(),
            seq![
                (ResolutionErrModel { kind: ResolutionErrorKind::EmptyPattern, detail: owner }),
            ],
        )
    } else {
        (resolve_text(elems, args), resolve_errs(elems, args))
    }
}

/// Renders `pattern` against `args`, best effort: text runs verbatim, a
/// present argument's value verbatim, the `{$name}` marker plus a collected
/// `MissingArgument` for an absent one. `owner` is the id of the message the
/// pattern belongs to, named by the `EmptyPattern` problem.
pub fn resolve(pattern: &Vec<PatternElement>, args: &ArgMap, owner: &str) -> (r: (
    String,
    Vec<ResolutionError>,
))
    ensures
        r.0@ == resolve_model(elems_model(pattern@), args@, owner@).0,
        errs_model(r.1@) == resolve_model(elems_model(pattern@), args@, owner@).1,
{
    let ghost elems = elems_model(pattern@);
    let ghost amodel = args@;
    let n = pattern.len();
    if n == 0 {
        let mut errs: Vec<ResolutionError> = Vec::new();
        errs.push(
            ResolutionError {
                kind: ResolutionErrorKind::EmptyPattern,
                detail: owner.to_owned(),
            },
        );
        proof {
            assert(errs_model(errs@) =~= resolve_model(elems, amodel, owner@).1);
        }
        return (String::new(), errs);
    }
    let mut out = String::new();
    let mut errs: Vec<ResolutionError> = Vec::new();
    let mut i: usize = 0;
    proof {
        assert(elems.skip(0) =~= elems);
        assert(errs_model(errs@) =~= Seq::<ResolutionErrModel>::empty());
        assert(out@ + resolve_text(elems, amodel) =~= resolve_text(elems, amodel));
        assert(errs_model(errs@) + resolve_errs(elems, amodel) =~= resolve_errs(elems, amodel));
    }
    while i < n
        invariant
            i <= n,
            n == pattern.len(),
            elems == elems_model(pattern@),
            amodel == args@,
            out@ + resolve_text(elems.skip(i as int), amodel) == resolve_text(elems, amodel),
            errs_model(errs@) + resolve_errs(elems.skip(i as int), amodel) == resolve_errs(
                elems,
                amodel,
            ),
        decreases n - i,
    {
        let ghost out0 = out@;
        let ghost errs0 = errs_model(errs@);
        proof {
            assert(elems.skip(i as int)[0] == elems[i as int]);
            assert(elems.skip(i as int).drop_first() =~= elems.skip(i + 1));
        }
        let ghost head_text = elem_text(elems[i as int], amodel);
        let ghost rest_text = resolve_text(elems.skip(i + 1), amodel);
        let ghost head_errs = elem_errs(elems[i as int], amodel);
        let ghost rest_errs = resolve_errs(elems.skip(i + 1), amodel);
        match &pattern[i] {
            PatternElement::Text(t) => {
                out.append(t.as_str());
                proof {
                    assert(errs0 + (Seq::<ResolutionErrModel>::empty() + rest_errs) =~= errs0
                        + rest_errs);
                }
            },
            PatternElement::Placeable(name) => {
                match args.get(name.as_str()) {
                    Some(v) => {
                        out.append(v.as_str());
                        proof {
                            assert(errs0 + (Seq::<ResolutionErrModel>::empty() + rest_errs)
                                =~= errs0 + rest_errs);
                        }
                    },
                    None => {
                        out.append("{$");
                        out.append(name.as_str());
                        out.append("}");
                        errs.push(
                            ResolutionError {
                                kind: ResolutionErrorKind::MissingArgument,
                                detail: name.clone(),
                            },
                        );
                        proof {
                            reveal_strlit("{$");
                            reveal_strlit("}");
                            assert(out@ =~= out0 + head_text);
                            assert(errs_model(errs@) =~= errs0 + head_errs);
                        }
                    },
                }
            },
        }
        proof {
            assert(out@ == out0 + head_text);
            assert((out0 + head_text) + rest_text =~= out0 + (head_text + rest_text));
            assert(errs_model(errs@) + rest_errs =~= errs0 + (head_errs + rest_errs));
        }
        i = i + 1;
    }
    proof {
        assert(elems.skip(n as int).len() == 0);
        assert(out@ + Seq::<char>::empty() =~= out@);
        assert(errs_model(errs@) + Seq::<ResolutionErrModel>::empty() =~= errs_model(errs@));
    }
    (out, errs)
}

/// Every element of the pattern is a literal text run.
pub open spec fn all_text(elems: Seq<ElemModel>) -> bool {
    forall|i: int| 0 <= i < elems.len() ==> (#[trigger] elems[i]) is Text
}

/// A pattern with no placeables renders to exactly its literal text,
/// whatever the arguments, and collects no problem along the way.
pub proof fn lemma_literal_renders_verbatim(
    elems: Seq<ElemModel>,
    args: Seq<(Seq<char>, Seq<char>)>,
)
    requires
        all_text(elems),
    ensures
        resolve_text(elems, args) == crate::ast::literal_text(elems),
        resolve_errs(elems, args) == Seq::<ResolutionErrModel>::empty(),
    decreases elems.len(),
{
    if elems.len() > 0 {
        assert(elems[0] is Text);
        lemma_literal_renders_verbatim(elems.drop_first(), args);
        assert(Seq::<ResolutionErrModel>::empty() + Seq::<ResolutionErrModel>::empty()
            =~= Seq::<ResolutionErrModel>::empty());
    }
}

/// Round trip of literal text: resolving a non-empty pattern made only of
/// text runs yields exactly those runs concatenated, with zero resolution
/// errors, for any arguments and any owning message.
pub proof fn lemma_literal_round_trip(
    elems: Seq<ElemModel>,
    args: Seq<(Seq<char>, Seq<char>)>,
    owner: Seq<char>,
)
    requires
        elems.len() > 0,
        all_text(elems),
    ensures
        resolve_model(elems, args, owner).0 == crate::ast::literal_text(elems),
        resolve_model(elems, args, owner).1 == Seq::<ResolutionErrModel>::empty(),
{
    lemma_literal_renders_verbatim(elems, args);
}

} // verus!
