//! What the `tool` attribute decides about an annotated function: the tool's
//! name and description, the names of the generated types, and for each
//! parameter whether it is injected state or an argument read from the call.
//! The shapes here hold, as plain values, what those decisions read of the
//! function's syntax; ids refer back to pieces of syntax kept by the caller.
use vstd::prelude::*;

use crate::text::{join, join_spec, law_join_writes_every_piece, piece_start, total_len, trim, trim_spec};

verus! {

/// An attribute, as far as the plan reads it.
pub struct AttrShape {
    /// The attribute's path when it is a single identifier (`doc` in
    /// `#[doc = ".."]`).
    pub path_ident: Option<String>,
    /// The string literal when the attribute has the form `path = "text"`.
    pub string_value: Option<String>,
}

/// The first generic argument of a path segment.
pub enum GenericArgShape {
    /// A type; `id` names it for the caller.
    Type { id: usize },
    /// A lifetime, a constant or a binding.
    NotAType,
}

/// The arguments of a path segment.
pub enum SegmentArgsShape {
    /// No arguments: `State`.
    NoArgs,
    /// Angle brackets, with the first argument if there is one: `State<T>`.
    AngleBracketed { first: Option<GenericArgShape> },
    /// Parentheses: `Fn(A) -> B`.
    Parenthesized,
}

/// A segment of a type path.
pub struct PathSegmentShape {
    pub ident: String,
    pub arguments: SegmentArgsShape,
}

/// A parameter's type.
pub enum TypeShape {
    /// A path such as `lazymcp::State<Store>`.
    Path { segments: Vec<PathSegmentShape> },
    /// Any other type.
    Other,
}

/// The pattern a parameter binds.
pub enum PatternShape {
    /// A plain name, possibly `mut`.
    Ident(String),
    /// A destructuring pattern.
    Destructuring,
}

/// A parameter of the annotated function.
pub enum FnArgShape {
    /// `self` in any form.
    Receiver,
    /// `pattern: ty`, with the parameter's attributes.
    Typed { pattern: PatternShape, ty: TypeShape, attrs: Vec<AttrShape> },
}

/// The annotated function.
pub struct ToolFnShape {
    pub name: String,
    pub attrs: Vec<AttrShape>,
    pub is_async: bool,
    pub args: Vec<FnArgShape>,
}

/// What becomes of one typed parameter.
pub enum ParamPlan {
    /// Injected state of the type with the id `inner_type`, fetched under the
    /// parameter's name; the parameter's doc attributes are dropped and the
    /// others (by index) stay on it.
    State { ident: String, inner_type: usize, kept_attrs: Vec<usize> },
    /// A field of the arguments struct; the parameter's doc attributes (by
    /// index) move to the field, the others stay on the parameter.
    Field { ident: String, doc_attrs: Vec<usize>, kept_attrs: Vec<usize> },
}

/// The plan as mathematical values.
pub enum ParamPlanView {
    State { ident: Seq<char>, inner_type: usize, kept_attrs: Seq<usize> },
    Field { ident: Seq<char>, doc_attrs: Seq<usize>, kept_attrs: Seq<usize> },
}

impl View for ParamPlan {
    type V = ParamPlanView;

    open spec fn view(&self) -> ParamPlanView {
        match self {
            ParamPlan::State { ident, inner_type, kept_attrs } => ParamPlanView::State {
                ident: ident@,
                inner_type: *inner_type,
                kept_attrs: kept_attrs@,
            },
            ParamPlan::Field { ident, doc_attrs, kept_attrs } => ParamPlanView::Field {
                ident: ident@,
                doc_attrs: doc_attrs@,
                kept_attrs: kept_attrs@,
            },
        }
    }
}

/// Everything the generated code is made from.
pub struct ToolPlan {
    /// The tool's name: the function's name.
    pub name: String,
    /// The tool's description: its doc lines joined, if it has any.
    pub description: Option<String>,
    /// The name of the generated arguments struct.
    pub args_struct_name: String,
    /// The name of the generated tool struct.
    pub tool_struct_name: String,
    /// Whether the call of the function is awaited.
    pub awaits: bool,
    /// One entry per typed parameter, in order.
    pub params: Vec<ParamPlan>,
}

/// Why no plan could be made.
#[derive(Debug, Clone, Copy, PartialEq, Eq)]
pub enum PlanError {
    /// The parameter at this index destructures its argument.
    DestructuringPattern { arg_index: usize },
}

/// The message reported for a destructuring parameter.
pub fn destructuring_message() -> (m: &'static str)
    ensures
        m@ == destructuring_message_spec(),
{
    "lazymcp: destructuring patterns in tool arguments are not supported, use simple identifiers (e.g. `name: Type`)"
}

/// The message reported for a destructuring parameter.
pub open spec fn destructuring_message_spec() -> Seq<char> {
    "lazymcp: destructuring patterns in tool arguments are not supported, use simple identifiers (e.g. `name: Type`)"@
}

// ---------------------------------------------------------------------------
// Specification

/// The trimmed texts of the `doc = "text"` attributes, in order.
pub open spec fn doc_texts(attrs: Seq<AttrShape>) -> Seq<Seq<char>>
    decreases attrs.len(),
{
    if attrs.len() == 0 {
        Seq::empty()
    } else {
        let rest = doc_texts(attrs.drop_last());
        match doc_text(attrs.last()) {
            Some(t) => rest.push(trim_spec(t)),
            None => rest,
        }
    }
}

/// Whether an attribute is a `doc` attribute of any form.
pub open spec fn is_doc(a: AttrShape) -> bool {
    a.path_ident matches Some(p) && p@ == "doc"@
}

/// The text of a `doc = "text"` attribute: a doc comment line.
pub open spec fn doc_text(a: AttrShape) -> Option<Seq<char>> {
    if is_doc(a) {
        match a.string_value {
            Some(t) => Some(t@),
            None => None,
        }
    } else {
        None
    }
}

/// The indices of the attributes that `keep` selects, in order.
pub open spec fn attr_indices(attrs: Seq<AttrShape>, doc: bool) -> Seq<usize>
    decreases attrs.len(),
{
    if attrs.len() == 0 {
        Seq::empty()
    } else {
        let rest = attr_indices(attrs.drop_last(), doc);
        if is_doc(attrs.last()) == doc {
            rest.push((attrs.len() - 1) as usize)
        } else {
            rest
        }
    }
}

/// The description of a tool with these doc lines.
pub open spec fn description_spec(docs: Seq<Seq<char>>) -> Option<Seq<char>> {
    if docs.len() == 0 {
        None
    } else {
        Some(join_spec(docs, "\n"@))
    }
}

/// The type inside `State<..>`, if `ty` is a path whose last segment is
/// `State` with a type as its first generic argument.
pub open spec fn state_inner_type_spec(ty: TypeShape) -> Option<usize> {
    match ty {
        TypeShape::Path { segments } => {
            if segments@.len() > 0 && segments@.last().ident@ == "State"@ {
                match segments@.last().arguments {
                    SegmentArgsShape::AngleBracketed { first: Some(GenericArgShape::Type { id }) } => Some(id),
                    _ => None,
                }
            } else {
                None
            }
        },
        TypeShape::Other => None,
    }
}

/// What becomes of a typed parameter that binds the name `ident`.
pub open spec fn param_spec(ident: Seq<char>, ty: TypeShape, attrs: Seq<AttrShape>) -> ParamPlanView {
    match state_inner_type_spec(ty) {
        Some(id) => ParamPlanView::State { ident, inner_type: id, kept_attrs: attr_indices(attrs, false) },
        None => ParamPlanView::Field {
            ident,
            doc_attrs: attr_indices(attrs, true),
            kept_attrs: attr_indices(attrs, false),
        },
    }
}

/// Whether the parameter destructures its argument.
pub open spec fn is_destructuring(a: FnArgShape) -> bool {
    match a {
        FnArgShape::Typed { pattern: PatternShape::Destructuring, .. } => true,
        _ => false,
    }
}

/// The plan of each typed parameter, in order; receivers are passed over.
pub open spec fn params_spec(args: Seq<FnArgShape>) -> Seq<ParamPlanView>
    decreases args.len(),
{
    if args.len() == 0 {
        Seq::empty()
    } else {
        let rest = params_spec(args.drop_last());
        match args.last() {
            FnArgShape::Typed { pattern: PatternShape::Ident(name), ty, attrs } => rest.push(
                param_spec(name@, ty, attrs@),
            ),
            _ => rest,
        }
    }
}

// ---------------------------------------------------------------------------
// Implementation

/// Whether `a` is a `doc` attribute: its path is the identifier `doc`.
pub fn attr_is_doc(a: &AttrShape) -> (r: bool)
    ensures
        r == is_doc(*a),
{
    match &a.path_ident {
        Some(p) => *p == String::from_str("doc"),
        None => false,
    }
}

/// The trimmed texts of the `doc = "text"` attributes, in order: the doc
/// comment lines of an item.
pub fn extract_docs(attrs: &Vec<AttrShape>) -> (docs: Vec<String>)
    ensures
        docs@.map_values(|d: String| d@) == doc_texts(attrs@),
{
    let mut docs: Vec<String> = Vec::new();
    let mut i: usize = 0;
    while i < attrs.len()
        invariant
            i <= attrs.len(),
            docs@.map_values(|d: String| d@) == doc_texts(attrs@.take(i as int)),
        decreases attrs.len() - i,
    {
        if attr_is_doc(&attrs[i]) {
            match &attrs[i].string_value {
                Some(t) => {
                    let trimmed = trim(t.as_str());
                    docs.push(trimmed);
                },
                None => {},
            }
        }
        proof {
            assert(attrs@.take(i + 1).drop_last() =~= attrs@.take(i as int));
            assert(attrs@.take(i + 1).last() == attrs@[i as int]);
            assert(docs@.map_values(|d: String| d@) =~= doc_texts(attrs@.take(i + 1)));
        }
        i = i + 1;
    }
    assert(attrs@.take(attrs.len() as int) =~= attrs@);
    docs
}

/// The description of a tool: `None` without doc lines, else the lines
/// joined by line breaks.
pub fn describe(docs: &Vec<String>) -> (d: Option<String>)
    ensures
        match d {
            None => description_spec(docs@.map_values(|s: String| s@)) is None,
            Some(t) => description_spec(docs@.map_values(|s: String| s@)) == Some(t@),
        },
{
    if docs.len() == 0 {
        None
    } else {
        Some(join(docs, "\n"))
    }
}

/// The type inside `State<..>`: the first generic argument of the last
/// segment, when that segment is `State` and the argument is a type.
pub fn extract_state_inner_type(ty: &TypeShape) -> (inner: Option<usize>)
    ensures
        inner == state_inner_type_spec(*ty),
{
    match ty {
        TypeShape::Path { segments } => {
            if segments.len() == 0 {
                return None;
            }
            let last = &segments[segments.len() - 1];
            let state_name = String::from_str("State");
            if last.ident == state_name {
                match &last.arguments {
                    SegmentArgsShape::AngleBracketed { first: Some(GenericArgShape::Type { id }) } => Some(
                        *id,
                    ),
                    _ => None,
                }
            } else {
                None
            }
        },
        TypeShape::Other => None,
    }
}

/// The indices of the doc attributes (`doc` true) or of the others.
pub fn attr_indices_of(attrs: &Vec<AttrShape>, doc: bool) -> (r: Vec<usize>)
    ensures
        r@ == attr_indices(attrs@, doc),
{
    let mut r: Vec<usize> = Vec::new();
    let mut i: usize = 0;
    while i < attrs.len()
        invariant
            i <= attrs.len(),
            r@ == attr_indices(attrs@.take(i as int), doc),
        decreases attrs.len() - i,
    {
        let is_doc_attr = attr_is_doc(&attrs[i]);
        if is_doc_attr == doc {
            r.push(i);
        }
        proof {
            assert(attrs@.take(i + 1).drop_last() =~= attrs@.take(i as int));
            assert(attrs@.take(i + 1).last() == attrs@[i as int]);
        }
        i = i + 1;
    }
    assert(attrs@.take(attrs.len() as int) =~= attrs@);
    r
}

/// Plans the glue for the annotated function `f`. Fails on the first
/// parameter that destructures its argument; otherwise each typed
/// parameter becomes, in order, injected state (a `State<T>` parameter) or a
/// field of the arguments struct that carries the parameter's doc attributes.
pub fn plan_tool(f: &ToolFnShape) -> (r: Result<ToolPlan, PlanError>)
    ensures
        match r {
            Err(PlanError::DestructuringPattern { arg_index }) => {
                &&& arg_index < f.args@.len()
                &&& is_destructuring(f.args@[arg_index as int])
                &&& forall|j: int| 0 <= j < arg_index ==> !is_destructuring(#[trigger] f.args@[j])
            },
            Ok(plan) => {
                &&& forall|j: int| 0 <= j < f.args@.len() ==> !is_destructuring(#[trigger] f.args@[j])
                &&& plan.name@ == f.name@
                &&& plan.args_struct_name@ == f.name@ + "_args"@
                &&& plan.tool_struct_name@ == f.name@ + "_tool"@
                &&& plan.awaits == f.is_async
                &&& match plan.description {
                    None => description_spec(doc_texts(f.attrs@)) is None,
                    Some(t) => description_spec(doc_texts(f.attrs@)) == Some(t@),
                }
                &&& plan.params@.map_values(|p: ParamPlan| p@) == params_spec(f.args@)
            },
        },
{
    let mut params: Vec<ParamPlan> = Vec::new();
    let mut i: usize = 0;
    while i < f.args.len()
        invariant
            i <= f.args.len(),
            forall|j: int| 0 <= j < i ==> !is_destructuring(#[trigger] f.args@[j]),
            params@.map_values(|p: ParamPlan| p@) == params_spec(f.args@.take(i as int)),
        decreases f.args.len() - i,
    {
        proof {
            assert(f.args@.take(i + 1).drop_last() =~= f.args@.take(i as int));
            assert(f.args@.take(i + 1).last() == f.args@[i as int]);
        }
        match &f.args[i] {
            FnArgShape::Receiver => {},
            FnArgShape::Typed { pattern, ty, attrs } => {
                match pattern {
                    PatternShape::Destructuring => {
                        return Err(PlanError::DestructuringPattern { arg_index: i });
                    },
                    PatternShape::Ident(name) => {
                        let p = match extract_state_inner_type(ty) {
                            Some(id) => ParamPlan::State {
                                ident: name.clone(),
                                inner_type: id,
                                kept_attrs: attr_indices_of(attrs, false),
                            },
                            None => ParamPlan::Field {
                                ident: name.clone(),
                                doc_attrs: attr_indices_of(attrs, true),
                                kept_attrs: attr_indices_of(attrs, false),
                            },
                        };
                        params.push(p);
                    },
                }
            },
        }
        proof {
            assert(params@.map_values(|p: ParamPlan| p@) =~= params_spec(f.args@.take(i + 1)));
        }
        i = i + 1;
    }
    assert(f.args@.take(f.args.len() as int) =~= f.args@);
    let docs = extract_docs(&f.attrs);
    let description = describe(&docs);
    let mut args_struct_name = f.name.clone();
    args_struct_name.append("_args");
    let mut tool_struct_name = f.name.clone();
    tool_struct_name.append("_tool");
    Ok(
        ToolPlan {
            name: f.name.clone(),
            description,
            args_struct_name,
            tool_struct_name,
            awaits: f.is_async,
            params,
        },
    )
}

// ---------------------------------------------------------------------------
// Laws

/// The number of typed (non-receiver) parameters.
pub open spec fn typed_arg_count(args: Seq<FnArgShape>) -> nat
    decreases args.len(),
{
    if args.len() == 0 {
        0
    } else {
        typed_arg_count(args.drop_last()) + match args.last() {
            FnArgShape::Receiver => 0nat,
            _ => 1nat,
        }
    }
}

/// Without destructuring parameters, every typed parameter gets exactly one
/// plan entry: the state parameters and the argument fields together are
/// the function's parameters.
pub proof fn law_one_plan_entry_per_parameter(args: Seq<FnArgShape>)
    requires
        forall|j: int| 0 <= j < args.len() ==> !is_destructuring(#[trigger] args[j]),
    ensures
        params_spec(args).len() == typed_arg_count(args),
    decreases args.len(),
{
    if args.len() > 0 {
        let rest = args.drop_last();
        assert forall|j: int| 0 <= j < rest.len() implies !is_destructuring(#[trigger] rest[j]) by {
            assert(rest[j] == args[j]);
        }
        law_one_plan_entry_per_parameter(rest);
        assert(!is_destructuring(args[args.len() - 1]));
    }
}

/// The doc attributes and the other attributes of a parameter split its
/// attributes: each index lands on exactly one side, the side its kind
/// says, and the two sides together are as many as the attributes.
pub proof fn law_doc_attributes_partition(attrs: Seq<AttrShape>)
    requires
        attrs.len() <= usize::MAX,
    ensures
        attr_indices(attrs, true).len() + attr_indices(attrs, false).len() == attrs.len(),
        forall|i: int|
            0 <= i < attrs.len() ==> attr_indices(attrs, is_doc(#[trigger] attrs[i])).contains(
                i as usize,
            ) && !attr_indices(attrs, !is_doc(attrs[i])).contains(i as usize),
        forall|d: bool, k: int|
            0 <= k < attr_indices(attrs, d).len() ==> #[trigger] attr_indices(attrs, d)[k]
                < attrs.len() && is_doc(attrs[attr_indices(attrs, d)[k] as int]) == d,
    decreases attrs.len(),
{
    if attrs.len() > 0 {
        let rest = attrs.drop_last();
        let n = attrs.len() - 1;
        law_doc_attributes_partition(rest);
        assert forall|d: bool, k: int|
            0 <= k < attr_indices(attrs, d).len() implies #[trigger] attr_indices(attrs, d)[k]
            < attrs.len() && is_doc(attrs[attr_indices(attrs, d)[k] as int]) == d by {
            if k < attr_indices(rest, d).len() {
                assert(attr_indices(attrs, d)[k] == attr_indices(rest, d)[k]);
                assert(attrs[attr_indices(rest, d)[k] as int] == rest[attr_indices(rest, d)[k] as int]);
            } else {
                assert(attr_indices(attrs, d)[k] == n as usize);
                assert(attrs[n] == attrs.last());
            }
        }
        assert forall|i: int| 0 <= i < attrs.len() implies attr_indices(attrs, is_doc(
            #[trigger] attrs[i],
        )).contains(i as usize) && !attr_indices(attrs, !is_doc(attrs[i])).contains(i as usize) by {
            let d = is_doc(attrs[i]);
            let iu = i as usize;
            let same = attr_indices(attrs, d);
            let other = attr_indices(attrs, !d);
            let rest_same = attr_indices(rest, d);
            let rest_other = attr_indices(rest, !d);
            if i < n {
                assert(rest[i] == attrs[i]);
                let k = choose|k: int| 0 <= k < rest_same.len() && #[trigger] rest_same[k] == iu;
                assert(same[k] == iu);
                if other.contains(iu) {
                    let k2 = choose|k2: int| 0 <= k2 < other.len() && #[trigger] other[k2] == iu;
                    if k2 < rest_other.len() {
                        assert(rest_other[k2] == iu);
                        assert(rest_other.contains(iu));
                    }
                }
            } else {
                assert(same.last() == iu);
                if other.contains(iu) {
                    let k2 = choose|k2: int| 0 <= k2 < other.len() && #[trigger] other[k2] == iu;
                    assert(other == rest_other);
                    assert(rest_other[k2] < rest.len());
                }
            }
        }
    }
}

/// A tool has a description exactly when its function has a
/// `doc = "text"` attribute.
pub proof fn law_description_iff_documented(attrs: Seq<AttrShape>)
    ensures
        description_spec(doc_texts(attrs)) is Some <==> exists|i: int|
            0 <= i < attrs.len() && #[trigger] doc_text(attrs[i]) is Some,
    decreases attrs.len(),
{
    if attrs.len() > 0 {
        let rest = attrs.drop_last();
        law_description_iff_documented(rest);
        if exists|i: int| 0 <= i < rest.len() && #[trigger] doc_text(rest[i]) is Some {
            let i = choose|i: int| 0 <= i < rest.len() && #[trigger] doc_text(rest[i]) is Some;
            assert(attrs[i] == rest[i]);
        }
        if exists|i: int| 0 <= i < attrs.len() && #[trigger] doc_text(attrs[i]) is Some {
            let i = choose|i: int| 0 <= i < attrs.len() && #[trigger] doc_text(attrs[i]) is Some;
            if i < rest.len() {
                assert(rest[i] == attrs[i]);
            }
        }
        assert(attrs[attrs.len() - 1] == attrs.last());
    }
}

/// The attributes that stay on the emitted parameter.
pub open spec fn kept_attrs_of(p: ParamPlanView) -> Seq<usize> {
    match p {
        ParamPlanView::State { kept_attrs, .. } => kept_attrs,
        ParamPlanView::Field { kept_attrs, .. } => kept_attrs,
    }
}

/// Doc comments never stay on an emitted parameter, injected state or
/// argument alike; every other attribute stays.
pub proof fn law_doc_attributes_leave_every_parameter(
    ident: Seq<char>,
    ty: TypeShape,
    attrs: Seq<AttrShape>,
)
    requires
        attrs.len() <= usize::MAX,
    ensures
        forall|k: int|
            0 <= k < kept_attrs_of(param_spec(ident, ty, attrs)).len() ==> #[trigger] kept_attrs_of(
                param_spec(ident, ty, attrs),
            )[k] < attrs.len() && !is_doc(
                attrs[kept_attrs_of(param_spec(ident, ty, attrs))[k] as int],
            ),
        forall|i: int|
            0 <= i < attrs.len() && !is_doc(#[trigger] attrs[i]) ==> kept_attrs_of(
                param_spec(ident, ty, attrs),
            ).contains(i as usize),
{
    law_doc_attributes_partition(attrs);
    let kept = kept_attrs_of(param_spec(ident, ty, attrs));
    assert(kept == attr_indices(attrs, false));
    assert forall|k: int| 0 <= k < kept.len() implies #[trigger] kept[k] < attrs.len() && !is_doc(
        attrs[kept[k] as int],
    ) by {
        assert(attr_indices(attrs, false)[k] == kept[k]);
    }
    assert forall|i: int| 0 <= i < attrs.len() && !is_doc(#[trigger] attrs[i]) implies kept.contains(
        i as usize,
    ) by {
        assert(attr_indices(attrs, is_doc(attrs[i])) == kept);
    }
}

/// A `doc = "text"` attribute: its path is `doc` and it carries a string.
pub open spec fn is_doc_line(a: AttrShape) -> bool {
    &&& a.path_ident matches Some(p) && p@ == "doc"@
    &&& a.string_value is Some
}

/// The attributes that are doc comment lines, in order.
pub open spec fn doc_line_attrs(attrs: Seq<AttrShape>) -> Seq<AttrShape> {
    attrs.filter(|a: AttrShape| is_doc_line(a))
}

/// There is one doc line per `doc = "text"` attribute, in order, each the
/// attribute's text trimmed; a blank line gives an empty entry.
pub proof fn law_one_doc_line_per_doc_attribute(attrs: Seq<AttrShape>)
    ensures
        doc_texts(attrs).len() == doc_line_attrs(attrs).len(),
        forall|k: int|
            0 <= k < doc_texts(attrs).len() ==> #[trigger] doc_texts(attrs)[k] == trim_spec(
                doc_line_attrs(attrs)[k].string_value.unwrap()@,
            ),
    decreases attrs.len(),
{
    reveal(Seq::filter);
    if attrs.len() > 0 {
        let rest = attrs.drop_last();
        law_one_doc_line_per_doc_attribute(rest);
        let a = attrs.last();
        assert(doc_line_attrs(attrs) == if is_doc_line(a) {
            doc_line_attrs(rest).push(a)
        } else {
            doc_line_attrs(rest)
        });
        if is_doc_line(a) {
            assert(doc_text(a) == Some(a.string_value.unwrap()@));
        } else {
            assert(doc_text(a) is None);
        }
    }
}

/// The description of a documented tool holds every doc line, in order,
/// with exactly one line break between neighbours and nothing else; an
/// undocumented tool has none.
pub proof fn law_description_holds_every_line(docs: Seq<Seq<char>>)
    ensures
        description_spec(docs) is None <==> docs.len() == 0,
        docs.len() > 0 ==> (description_spec(docs) matches Some(t) && {
            &&& t.len() == total_len(docs) + docs.len() - 1
            &&& forall|i: int|
                #![trigger docs[i]]
                0 <= i < docs.len() ==> t.subrange(piece_start(docs, i), piece_start(docs, i) + docs[i].len())
                    == docs[i]
            &&& forall|i: int|
                #![trigger docs[i]]
                0 <= i < docs.len() - 1 ==> t[piece_start(docs, i) + docs[i].len()] == '\n'
        }),
{
    if docs.len() > 0 {
        reveal_strlit("\n");
        assert("\n"@ =~= seq!['\n']);
        law_join_writes_every_piece(docs, '\n');
    }
}

/// Whether a type is a path whose last segment is `State` with a type as its
/// first generic argument, that type having the id `id`.
pub open spec fn is_state_of(ty: TypeShape, id: usize) -> bool {
    &&& ty matches TypeShape::Path { segments } && segments@.len() > 0
    &&& ty->segments@.last().ident@ == "State"@
    &&& ty->segments@.last().arguments matches SegmentArgsShape::AngleBracketed {
        first: Some(GenericArgShape::Type { id: inner }),
    } && inner == id
}

/// A parameter typed `State<T>` (after any path prefix, none included) is
/// injected state of `T`; a parameter of any other type is an argument
/// field.
pub proof fn law_state_parameter_recognised(ident: Seq<char>, ty: TypeShape, attrs: Seq<AttrShape>, id: usize)
    ensures
        is_state_of(ty, id) ==> (state_inner_type_spec(ty) == Some(id) && (param_spec(ident, ty, attrs)
            matches ParamPlanView::State { inner_type, .. } && inner_type == id)),
        (forall|j: usize| !is_state_of(ty, j)) ==> state_inner_type_spec(ty) is None && param_spec(
            ident,
            ty,
            attrs,
        ) is Field,
{
    if state_inner_type_spec(ty) is Some {
        let j = state_inner_type_spec(ty).unwrap();
        assert(is_state_of(ty, j));
    }
}

/// A doc attribute of any form: its path is `doc`.
pub open spec fn has_doc_path(a: AttrShape) -> bool {
    a.path_ident matches Some(p) && p@ == "doc"@
}

/// An argument field carries every doc attribute of its parameter and the
/// parameter keeps every other attribute: each index lands on exactly one
/// side, the side its path says, in the parameter's order.
pub proof fn law_argument_field_carries_every_doc_attribute(
    ident: Seq<char>,
    ty: TypeShape,
    attrs: Seq<AttrShape>,
)
    requires
        attrs.len() <= usize::MAX,
        state_inner_type_spec(ty) is None,
    ensures
        param_spec(ident, ty, attrs) matches ParamPlanView::Field { doc_attrs, kept_attrs, .. } && {
            &&& doc_attrs.len() + kept_attrs.len() == attrs.len()
            &&& forall|i: int|
                0 <= i < attrs.len() && has_doc_path(#[trigger] attrs[i]) ==> doc_attrs.contains(
                    i as usize,
                )
            &&& forall|i: int|
                0 <= i < attrs.len() && !has_doc_path(#[trigger] attrs[i]) ==> kept_attrs.contains(
                    i as usize,
                )
            &&& forall|k: int|
                0 <= k < doc_attrs.len() ==> #[trigger] doc_attrs[k] < attrs.len() && has_doc_path(
                    attrs[doc_attrs[k] as int],
                )
            &&& forall|k: int|
                0 <= k < kept_attrs.len() ==> #[trigger] kept_attrs[k] < attrs.len() && !has_doc_path(
                    attrs[kept_attrs[k] as int],
                )
            &&& forall|a: int, b: int| 0 <= a < b < doc_attrs.len() ==> doc_attrs[a] < doc_attrs[b]
            &&& forall|a: int, b: int| 0 <= a < b < kept_attrs.len() ==> kept_attrs[a] < kept_attrs[b]
        },
{
    law_doc_attributes_partition(attrs);
    lemma_attr_indices_increasing(attrs, true);
    lemma_attr_indices_increasing(attrs, false);
    let docs = attr_indices(attrs, true);
    let kept = attr_indices(attrs, false);
    assert forall|i: int| 0 <= i < attrs.len() && has_doc_path(#[trigger] attrs[i]) implies docs.contains(
        i as usize,
    ) by {
        assert(is_doc(attrs[i]));
    }
    assert forall|i: int| 0 <= i < attrs.len() && !has_doc_path(#[trigger] attrs[i]) implies kept.contains(
        i as usize,
    ) by {
        assert(!is_doc(attrs[i]));
    }
    assert forall|k: int| 0 <= k < docs.len() implies #[trigger] docs[k] < attrs.len() && has_doc_path(
        attrs[docs[k] as int],
    ) by {
        assert(attr_indices(attrs, true)[k] == docs[k]);
    }
    assert forall|k: int| 0 <= k < kept.len() implies #[trigger] kept[k] < attrs.len() && !has_doc_path(
        attrs[kept[k] as int],
    ) by {
        assert(attr_indices(attrs, false)[k] == kept[k]);
    }
}

/// The indices of one kind of attribute come in increasing order, each below
/// the number of attributes.
proof fn lemma_attr_indices_increasing(attrs: Seq<AttrShape>, doc: bool)
    requires
        attrs.len() <= usize::MAX,
    ensures
        forall|k: int| 0 <= k < attr_indices(attrs, doc).len() ==> #[trigger] attr_indices(attrs, doc)[k] < attrs.len(),
        forall|a: int, b: int|
            0 <= a < b < attr_indices(attrs, doc).len() ==> attr_indices(attrs, doc)[a] < attr_indices(
                attrs,
                doc,
            )[b],
    decreases attrs.len(),
{
    if attrs.len() > 0 {
        let rest = attrs.drop_last();
        lemma_attr_indices_increasing(rest, doc);
        let r = attr_indices(rest, doc);
        let all = attr_indices(attrs, doc);
        if is_doc(attrs.last()) == doc {
            assert(all == r.push((attrs.len() - 1) as usize));
            assert forall|k: int| 0 <= k < all.len() implies #[trigger] all[k] < attrs.len() by {
                if k < r.len() {
                    assert(all[k] == r[k]);
                }
            }
            assert forall|a: int, b: int| 0 <= a < b < all.len() implies all[a] < all[b] by {
                assert(all[a] == r[a]);
                if b < r.len() {
                    assert(all[b] == r[b]);
                }
            }
        }
    }
}

} // verus!
