use vstd::prelude::*;
use crate::context::{ContextView, ToolContext, context_from_text};
use crate::id::{ProtoId, is_valid_id};

verus! {

/// The value of a config field that the config does not know.
pub enum UnknownValue {
    /// An array or a table.
    Compound,
    /// Any other value, as it displays.
    Scalar(String),
}

pub enum UnknownValueView {
    Compound,
    Scalar(Seq<char>),
}

impl View for UnknownValue {
    type V = UnknownValueView;

    open spec fn view(&self) -> UnknownValueView {
        match self {
            UnknownValue::Compound => UnknownValueView::Compound,
            UnknownValue::Scalar(v) => UnknownValueView::Scalar(v@),
        }
    }
}

/// Why an unknown field of a config is refused.
pub enum UnknownFieldError {
    /// An array or table under a key the config does not know.
    UnknownField { field: String },
    /// A value under a key that reads as a tool, but that the config does
    /// not pin as a version.
    InvalidVersionValue { field: String, value: String },
    /// A value under a key that does not read as a tool: its identifier is
    /// not valid.
    InvalidId { field: String, id: String },
}

pub enum UnknownFieldErrorView {
    UnknownField { field: Seq<char> },
    InvalidVersionValue { field: Seq<char>, value: Seq<char> },
    InvalidId { field: Seq<char>, id: Seq<char> },
}

impl View for UnknownFieldError {
    type V = UnknownFieldErrorView;

    open spec fn view(&self) -> UnknownFieldErrorView {
        match self {
            UnknownFieldError::UnknownField { field } => UnknownFieldErrorView::UnknownField { field: field@ },
            UnknownFieldError::InvalidVersionValue { field, value } => UnknownFieldErrorView::InvalidVersionValue {
                field: field@,
                value: value@,
            },
            UnknownFieldError::InvalidId { field, id } => UnknownFieldErrorView::InvalidId { field: field@, id: id@ },
        }
    }
}

/// What is wrong with one unknown field, if anything: an array or table is
/// unknown; a value under a key that reads as a tool is accepted when the
/// config pins a version for that tool (pins show up among the unknown
/// fields too), and is an invalid version otherwise; a value under any
/// other key has an invalid identifier.
pub open spec fn unknown_field_error(
    field: Seq<char>,
    value: UnknownValueView,
    pinned: Seq<ContextView>,
) -> Option<UnknownFieldErrorView> {
    match value {
        UnknownValueView::Compound => Some(UnknownFieldErrorView::UnknownField { field }),
        UnknownValueView::Scalar(v) => {
            let c = context_from_text(field);
            if !is_valid_id(c.id) {
                Some(UnknownFieldErrorView::InvalidId { field, id: c.id })
            } else if pinned.contains(c) {
                None
            } else {
                Some(UnknownFieldErrorView::InvalidVersionValue { field, value: v })
            }
        },
    }
}

/// The problems with the unknown fields of a config, in order.
pub open spec fn unknown_errors_spec(
    unknown: Seq<(Seq<char>, UnknownValueView)>,
    pinned: Seq<ContextView>,
) -> Seq<UnknownFieldErrorView>
    decreases unknown.len(),
{
    if unknown.len() == 0 {
        seq![]
    } else {
        let rest = unknown_errors_spec(unknown.drop_last(), pinned);
        match unknown_field_error(unknown.last().0, unknown.last().1, pinned) {
            Some(e) => rest.push(e),
            None => rest,
        }
    }
}

pub open spec fn unknown_view(u: Seq<(String, UnknownValue)>) -> Seq<(Seq<char>, UnknownValueView)> {
    u.map_values(|e: (String, UnknownValue)| (e.0@, e.1@))
}

pub open spec fn contexts_view(p: Seq<ToolContext>) -> Seq<ContextView> {
    p.map_values(|c: ToolContext| c@)
}

pub open spec fn errors_view(e: Seq<UnknownFieldError>) -> Seq<UnknownFieldErrorView> {
    e.map_values(|x: UnknownFieldError| x@)
}

fn pins(pinned: &Vec<ToolContext>, c: &ToolContext) -> (r: bool)
    ensures
        r == contexts_view(pinned@).contains(c@),
{
    let ghost pv = contexts_view(pinned@);
    let mut i: usize = 0;
    while i < pinned.len()
        invariant
            i <= pinned@.len(),
            pv == contexts_view(pinned@),
            forall|j: int| 0 <= j < i ==> pv[j] != c@,
        decreases pinned@.len() - i,
    {
        if pinned[i].equals(c) {
            assert(pv[i as int] == c@);
            return true;
        }
        i = i + 1;
    }
    assert(!pv.contains(c@)) by {
        if pv.contains(c@) {
            let k = choose|k: int| 0 <= k < pv.len() && pv[k] == c@;
            assert(pv[k] != c@);
        }
    }
    false
}

/// The problems with the unknown fields of a loaded config, given the
/// tools it pins a version for (see `unknown_field_error`). A config whose
/// unknown fields give none loads.
pub fn unknown_field_errors(unknown: &Vec<(String, UnknownValue)>, pinned: &Vec<ToolContext>) -> (r: Vec<
    UnknownFieldError,
>)
    ensures
        errors_view(r@) == unknown_errors_spec(unknown_view(unknown@), contexts_view(pinned@)),
{
    let ghost uv = unknown_view(unknown@);
    let ghost pv = contexts_view(pinned@);
    let mut out: Vec<UnknownFieldError> = Vec::new();
    let mut i: usize = 0;
    assert(uv.subrange(0, 0) =~= Seq::<(Seq<char>, UnknownValueView)>::empty());
    while i < unknown.len()
        invariant
            i <= unknown@.len(),
            uv == unknown_view(unknown@),
            pv == contexts_view(pinned@),
            errors_view(out@) == unknown_errors_spec(uv.subrange(0, i as int), pv),
        decreases unknown@.len() - i,
    {
        assert(uv.subrange(0, i + 1).drop_last() =~= uv.subrange(0, i as int));
        assert(uv.subrange(0, i + 1).last() == uv[i as int]);
        let field = &unknown[i].0;
        let ghost before = errors_view(out@);
        match &unknown[i].1 {
            UnknownValue::Compound => {
                out.push(UnknownFieldError::UnknownField { field: field.clone() });
                assert(errors_view(out@) =~= before.push(UnknownFieldErrorView::UnknownField { field: field@ }));
            },
            UnknownValue::Scalar(v) => {
                let c = ToolContext::from_text(field.as_str());
                if ProtoId::new(c.id.as_str()).is_err() {
                    let id = c.id.clone();
                    out.push(UnknownFieldError::InvalidId { field: field.clone(), id });
                    assert(errors_view(out@) =~= before.push(
                        UnknownFieldErrorView::InvalidId { field: field@, id: c.id@ },
                    ));
                } else if !pins(pinned, &c) {
                    out.push(UnknownFieldError::InvalidVersionValue { field: field.clone(), value: v.clone() });
                    assert(errors_view(out@) =~= before.push(
                        UnknownFieldErrorView::InvalidVersionValue { field: field@, value: v@ },
                    ));
                }
            },
        }
        i = i + 1;
    }
    assert(uv.subrange(0, uv.len() as int) =~= uv);
    out
}

} // verus!
