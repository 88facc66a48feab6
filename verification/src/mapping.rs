//! Whether a renaming of fields fits the templates on its two sides.

use vstd::prelude::*;
use crate::message::{spec_target, FieldMap};
use crate::midi::message_template::MessageTemplate;

verus! {

/// Why a renaming does not fit its templates.
#[derive(Debug, Clone, PartialEq, Eq)]
pub enum FieldError {
    /// The renaming names a field that the template on that side does not have.
    UnknownField(String),
    /// Two fields of the input template come out under this one name.
    Collision(String),
}

/// What a [`FieldError`] stands for.
pub enum FieldErrorView {
    UnknownField(Seq<char>),
    Collision(Seq<char>),
}

impl View for FieldError {
    type V = FieldErrorView;

    open spec fn view(&self) -> FieldErrorView {
        match self {
            FieldError::UnknownField(name) => FieldErrorView::UnknownField(name@),
            FieldError::Collision(name) => FieldErrorView::Collision(name@),
        }
    }
}

/// The views of a list of names.
pub open spec fn name_views(names: Seq<String>) -> Seq<Seq<char>> {
    Seq::new(names.len(), |i: int| names[i]@)
}

/// The first name that a pair at or after index `from` uses and its
/// template does not have: the left name is held against the input's
/// fields, then the right name against the output's.
pub open spec fn spec_unknown_from(
    pairs: Seq<(Seq<char>, Seq<char>)>,
    inputs: Seq<Seq<char>>,
    outputs: Seq<Seq<char>>,
    from: int,
) -> Option<Seq<char>>
    decreases pairs.len() - from,
{
    if from < 0 || from >= pairs.len() {
        None
    } else if !inputs.contains(pairs[from].0) {
        Some(pairs[from].0)
    } else if !outputs.contains(pairs[from].1) {
        Some(pairs[from].1)
    } else {
        spec_unknown_from(pairs, inputs, outputs, from + 1)
    }
}

/// The names that the fields `inputs` come out under.
pub open spec fn spec_renamed(inputs: Seq<Seq<char>>, pairs: Seq<(Seq<char>, Seq<char>)>) -> Seq<
    Seq<char>,
> {
    Seq::new(inputs.len(), |i: int| spec_target(pairs, inputs[i]))
}

/// The first name at or after index `from` that stands in `names` before
/// that index too.
pub open spec fn spec_repeated_from(names: Seq<Seq<char>>, from: int) -> Option<Seq<char>>
    decreases names.len() - from,
{
    if from < 0 || from >= names.len() {
        None
    } else if names.subrange(0, from).contains(names[from]) {
        Some(names[from])
    } else {
        spec_repeated_from(names, from + 1)
    }
}

/// What is wrong with the renaming `pairs` between templates with the
/// fields `inputs` and `outputs`, if anything: a name that is no field
/// counts before a collision.
pub open spec fn spec_field_problem(
    pairs: Seq<(Seq<char>, Seq<char>)>,
    inputs: Seq<Seq<char>>,
    outputs: Seq<Seq<char>>,
) -> Option<FieldErrorView> {
    match spec_unknown_from(pairs, inputs, outputs, 0) {
        Some(name) => Some(FieldErrorView::UnknownField(name)),
        None => match spec_repeated_from(spec_renamed(inputs, pairs), 0) {
            Some(name) => Some(FieldErrorView::Collision(name)),
            None => None,
        },
    }
}

impl MessageTemplate {
    /// The names of the template's fields, in order.
    pub open spec fn spec_fields(&self) -> Seq<Seq<char>> {
        match self {
            MessageTemplate::NoteOn { .. } => seq!["channel"@, "note"@, "velocity"@],
            MessageTemplate::NoteOff { .. } => seq!["channel"@, "note"@, "velocity"@],
            MessageTemplate::ControlChange { .. } => seq!["channel"@, "controller"@, "value"@],
            MessageTemplate::ProgramChange { .. } => seq!["channel"@, "program"@],
            MessageTemplate::PolyPressure { .. } => seq!["channel"@, "note"@, "pressure"@],
            MessageTemplate::ChannelPressure { .. } => seq!["channel"@, "pressure"@],
            MessageTemplate::PitchBend { .. } => seq!["channel"@, "bend"@],
        }
    }

    /// The names of the template's fields, in order.
    pub fn fields(&self) -> (names: Vec<String>)
        ensures
            name_views(names@) == self.spec_fields(),
    {
        let mut names: Vec<String> = Vec::new();
        names.push("channel".to_owned());
        match self {
            MessageTemplate::NoteOn { .. } => {
                names.push("note".to_owned());
                names.push("velocity".to_owned());
            },
            MessageTemplate::NoteOff { .. } => {
                names.push("note".to_owned());
                names.push("velocity".to_owned());
            },
            MessageTemplate::ControlChange { .. } => {
                names.push("controller".to_owned());
                names.push("value".to_owned());
            },
            MessageTemplate::ProgramChange { .. } => {
                names.push("program".to_owned());
            },
            MessageTemplate::PolyPressure { .. } => {
                names.push("note".to_owned());
                names.push("pressure".to_owned());
            },
            MessageTemplate::ChannelPressure { .. } => {
                names.push("pressure".to_owned());
            },
            MessageTemplate::PitchBend { .. } => {
                names.push("bend".to_owned());
            },
        }
        assert(name_views(names@) =~= self.spec_fields());
        names
    }
}

/// Whether `name` is among the first `upto` of `names`.
fn contains_name(names: &Vec<String>, upto: usize, name: &String) -> (r: bool)
    requires
        upto <= names.len(),
    ensures
        r == name_views(names@).subrange(0, upto as int).contains(name@),
{
    let ghost views = name_views(names@).subrange(0, upto as int);
    let mut i: usize = 0;
    while i < upto
        invariant
            i <= upto <= names.len(),
            views == name_views(names@).subrange(0, upto as int),
            forall|j: int| 0 <= j < i ==> views[j] != name@,
        decreases upto - i,
    {
        if names[i] == *name {
            assert(views[i as int] == name@);
            return true;
        }
        i += 1;
    }
    false
}

/// Checks that the renaming `field_map` fits its templates: every pair
/// names a field of `input` on the left and a field of `output` on the
/// right, and no two fields of `input` come out under one name.
pub fn check_fields(input: &MessageTemplate, output: &MessageTemplate, field_map: &FieldMap) -> (r:
    Result<(), FieldError>)
    ensures
        match r {
            Ok(()) => spec_field_problem(field_map@, input.spec_fields(), output.spec_fields())
                is None,
            Err(e) => spec_field_problem(field_map@, input.spec_fields(), output.spec_fields())
                == Some(e@),
        },
{
    let inputs = input.fields();
    let outputs = output.fields();
    let ghost ins = input.spec_fields();
    let ghost outs = output.spec_fields();
    assert(name_views(inputs@).subrange(0, inputs@.len() as int) =~= ins);
    assert(name_views(outputs@).subrange(0, outputs@.len() as int) =~= outs);
    let mut p: usize = 0;
    while p < field_map.pairs.len()
        invariant
            p <= field_map.pairs.len(),
            ins == input.spec_fields(),
            outs == output.spec_fields(),
            name_views(inputs@) == ins,
            name_views(outputs@) == outs,
            name_views(inputs@).subrange(0, inputs@.len() as int) == ins,
            name_views(outputs@).subrange(0, outputs@.len() as int) == outs,
            spec_unknown_from(field_map@, ins, outs, 0) == spec_unknown_from(
                field_map@,
                ins,
                outs,
                p as int,
            ),
        decreases field_map.pairs.len() - p,
    {
        assert(field_map@[p as int] == (field_map.pairs@[p as int].0@, field_map.pairs@[p as int].1@));
        if !contains_name(&inputs, inputs.len(), &field_map.pairs[p].0) {
            return Err(FieldError::UnknownField(field_map.pairs[p].0.clone()));
        }
        if !contains_name(&outputs, outputs.len(), &field_map.pairs[p].1) {
            return Err(FieldError::UnknownField(field_map.pairs[p].1.clone()));
        }
        p += 1;
    }
    let mut renamed: Vec<String> = Vec::new();
    let mut i: usize = 0;
    let ghost goal = spec_renamed(ins, field_map@);
    while i < inputs.len()
        invariant
            i <= inputs.len(),
            ins == input.spec_fields(),
            outs == output.spec_fields(),
            name_views(inputs@) == ins,
            goal == spec_renamed(ins, field_map@),
            renamed@.len() == i,
            name_views(renamed@) == goal.subrange(0, i as int),
            spec_repeated_from(goal, 0) == spec_repeated_from(goal, i as int),
            spec_unknown_from(field_map@, ins, outs, 0) is None,
        decreases inputs.len() - i,
    {
        assert(ins[i as int] == inputs@[i as int]@);
        let name = field_map.target(&inputs[i]);
        assert(name@ == goal[i as int]);
        assert(name_views(renamed@).subrange(0, i as int) =~= goal.subrange(0, i as int));
        if contains_name(&renamed, i, &name) {
            return Err(FieldError::Collision(name));
        }
        renamed.push(name);
        assert(name_views(renamed@) =~= goal.subrange(0, i + 1));
        i += 1;
    }
    Ok(())
}

} // verus!
