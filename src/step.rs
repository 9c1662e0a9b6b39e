use vstd::prelude::*;
use vstd::string::*;
use crate::text::{blank, is_blank};

verus! {

/// One custody or provenance event recorded for a product.
#[derive(Debug)]
pub struct Step {
    pub product_id: String,
    pub actor_name: String,
    pub role: String,
    pub action: String,
    pub location: String,
    pub notes: Option<String>,
    pub timestamp: u64,
}

/// The mathematical value of a `Step`: its texts as character sequences.
pub struct StepModel {
    pub product_id: Seq<char>,
    pub actor_name: Seq<char>,
    pub role: Seq<char>,
    pub action: Seq<char>,
    pub location: Seq<char>,
    pub notes: Option<Seq<char>>,
    pub timestamp: u64,
}

/// The model of optional text.
pub open spec fn opt_text_view(o: Option<String>) -> Option<Seq<char>> {
    match o {
        Some(s) => Some(s@),
        None => None,
    }
}

impl View for Step {
    type V = StepModel;

    open spec fn view(&self) -> StepModel {
        StepModel {
            product_id: self.product_id@,
            actor_name: self.actor_name@,
            role: self.role@,
            action: self.action@,
            location: self.location@,
            notes: opt_text_view(self.notes),
            timestamp: self.timestamp,
        }
    }
}

/// The models of a sequence of steps.
pub open spec fn steps_view(v: Seq<Step>) -> Seq<StepModel> {
    v.map_values(|s: Step| s@)
}

/// The required fields of a step, in the order they are checked.
#[derive(Clone, Copy, Debug, PartialEq, Eq, Structural)]
pub enum StepField {
    ProductId,
    ActorName,
    Role,
    Action,
    Location,
}

/// The rejection message for a blank `f`.
pub open spec fn field_message(f: StepField) -> Seq<char> {
    match f {
        StepField::ProductId => "Product ID cannot be empty"@,
        StepField::ActorName => "Actor name cannot be empty"@,
        StepField::Role => "Role cannot be empty"@,
        StepField::Action => "Action cannot be empty"@,
        StepField::Location => "Location cannot be empty"@,
    }
}

impl StepField {
    /// The rejection message that names this field.
    pub fn message(&self) -> (r: String)
        ensures
            r@ == field_message(*self),
    {
        match self {
            StepField::ProductId => String::from_str("Product ID cannot be empty"),
            StepField::ActorName => String::from_str("Actor name cannot be empty"),
            StepField::Role => String::from_str("Role cannot be empty"),
            StepField::Action => String::from_str("Action cannot be empty"),
            StepField::Location => String::from_str("Location cannot be empty"),
        }
    }
}

/// The first required field, in checking order, that is blank.
pub open spec fn first_blank_field(s: StepModel) -> Option<StepField> {
    if blank(s.product_id) {
        Some(StepField::ProductId)
    } else if blank(s.actor_name) {
        Some(StepField::ActorName)
    } else if blank(s.role) {
        Some(StepField::Role)
    } else if blank(s.action) {
        Some(StepField::Action)
    } else if blank(s.location) {
        Some(StepField::Location)
    } else {
        None
    }
}

/// Notes that are blank are recorded as absent.
pub open spec fn normal_notes(n: Option<Seq<char>>) -> Option<Seq<char>> {
    match n {
        Some(t) => if blank(t) {
            None
        } else {
            Some(t)
        },
        None => None,
    }
}

/// The step with its notes normalised; the timestamp is left as it came.
pub open spec fn normalized(s: StepModel) -> StepModel {
    StepModel { notes: normal_notes(s.notes), ..s }
}

/// The step as the store records it at time `now`.
pub open spec fn stamped(s: StepModel, now: u64) -> StepModel {
    StepModel { notes: normal_notes(s.notes), timestamp: now, ..s }
}

/// A step that may stand in a ledger: no required field is blank, notes are
/// absent or not blank.
pub open spec fn valid_step(s: StepModel) -> bool {
    &&& first_blank_field(s) is None
    &&& normal_notes(s.notes) == s.notes
}

/// Checks a candidate step and normalises its notes.
pub fn validate(step: Step) -> (r: Result<Step, StepField>)
    ensures
        match first_blank_field(step@) {
            Some(f) => r == Err::<Step, StepField>(f),
            None => r matches Ok(n) && n@ == normalized(step@),
        },
{
    if is_blank(step.product_id.as_str()) {
        return Err(StepField::ProductId);
    }
    if is_blank(step.actor_name.as_str()) {
        return Err(StepField::ActorName);
    }
    if is_blank(step.role.as_str()) {
        return Err(StepField::Role);
    }
    if is_blank(step.action.as_str()) {
        return Err(StepField::Action);
    }
    if is_blank(step.location.as_str()) {
        return Err(StepField::Location);
    }
    let mut step = step;
    let notes = step.notes.take();
    step.notes = match notes {
        Some(t) => if is_blank(t.as_str()) {
            None
        } else {
            Some(t)
        },
        None => None,
    };
    Ok(step)
}

impl Step {
    /// Whether this step may stand in a ledger as it is.
    pub fn is_valid(&self) -> (r: bool)
        ensures
            r == valid_step(self@),
    {
        if is_blank(self.product_id.as_str()) || is_blank(self.actor_name.as_str()) || is_blank(
            self.role.as_str(),
        ) || is_blank(self.action.as_str()) || is_blank(self.location.as_str()) {
            return false;
        }
        match &self.notes {
            Some(t) => !is_blank(t.as_str()),
            None => true,
        }
    }

    /// A field-by-field copy.
    pub fn duplicate(&self) -> (r: Step)
        ensures
            r@ == self@,
    {
        let notes = match &self.notes {
            Some(t) => Some(t.clone()),
            None => None,
        };
        Step {
            product_id: self.product_id.clone(),
            actor_name: self.actor_name.clone(),
            role: self.role.clone(),
            action: self.action.clone(),
            location: self.location.clone(),
            notes,
            timestamp: self.timestamp,
        }
    }
}

/// The answer to a submission: a confirmation or a rejection message.
#[derive(Debug)]
pub enum AddStepResult {
    Added(String),
    Rejected(String),
}

} // verus!
