//! The option detail pane.

use vstd::prelude::*;

verus! {

/// A line of the option detail pane.
#[derive(Debug, Clone)]
pub enum DetailLine {
    /// A labelled value.
    Field(&'static str, String),
    /// The separator line (`&`).
    Separator,
}

/// A detail line as label and value characters (`None` for the separator).
pub open spec fn line_view(l: DetailLine) -> Option<(Seq<char>, Seq<char>)> {
    match l {
        DetailLine::Field(label, value) => Some((label@, value@)),
        DetailLine::Separator => None,
    }
}

/// The lines of an optional field: a separator and the field, when the
/// value is not empty.
pub open spec fn optional_field(label: Seq<char>, value: Seq<char>) -> Seq<Option<(Seq<char>, Seq<char>)>> {
    if value.len() > 0 { seq![None, Some((label, value))] } else { Seq::empty() }
}

/// The detail lines of an option: name, description and type, then its
/// default, example and declaration when present, with separators between.
pub open spec fn detail_spec(
    name: Seq<char>,
    description: Seq<char>,
    option_type: Seq<char>,
    default: Seq<char>,
    example: Seq<char>,
    declared_in: Seq<char>,
) -> Seq<Option<(Seq<char>, Seq<char>)>> {
    seq![Some(("Name: "@, name)), None, Some(("Description: "@, description)), None, Some(("Type: "@, option_type))]
        + optional_field("Default: "@, default)
        + optional_field("Example: "@, example)
        + optional_field("Declared in: "@, declared_in)
}

fn push_optional(lines: &mut Vec<DetailLine>, label: &'static str, value: &String)
    ensures
        final(lines)@.map_values(|l: DetailLine| line_view(l)) == old(lines)@.map_values(|l: DetailLine| line_view(l)) + optional_field(label@, value@),
{
    if !value.as_str().is_empty() {
        let ghost before = lines@;
        lines.push(DetailLine::Separator);
        lines.push(DetailLine::Field(label, value.clone()));
        assert(lines@.map_values(|l: DetailLine| line_view(l)) =~= before.map_values(|l: DetailLine| line_view(l)) + optional_field(label@, value@));
    } else {
        assert(optional_field(label@, value@) =~= Seq::empty());
        assert(lines@.map_values(|l: DetailLine| line_view(l)) + optional_field(label@, value@) =~= lines@.map_values(|l: DetailLine| line_view(l)));
    }
}

/// The detail lines of an option.
pub fn option_detail(
    name: &String,
    description: &String,
    option_type: &String,
    default: &String,
    example: &String,
    declared_in: &String,
) -> (r: Vec<DetailLine>)
    ensures
        r@.map_values(|l: DetailLine| line_view(l)) == detail_spec(name@, description@, option_type@, default@, example@, declared_in@),
{
    let mut lines: Vec<DetailLine> = Vec::new();
    lines.push(DetailLine::Field("Name: ", name.clone()));
    lines.push(DetailLine::Separator);
    lines.push(DetailLine::Field("Description: ", description.clone()));
    lines.push(DetailLine::Separator);
    lines.push(DetailLine::Field("Type: ", option_type.clone()));
    assert(lines@.map_values(|l: DetailLine| line_view(l)) =~= seq![Some(("Name: "@, name@)), None, Some(("Description: "@, description@)), None, Some(("Type: "@, option_type@))]);
    push_optional(&mut lines, "Default: ", default);
    push_optional(&mut lines, "Example: ", example);
    push_optional(&mut lines, "Declared in: ", declared_in);
    lines
}

} // verus!
