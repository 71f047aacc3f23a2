//! The execution transcript: what was recorded of a computation, step by
//! step, before any of it is folded.

use crate::field::{
    decode_public_input, first_unreadable, parse_outcome, FieldElement, FieldParseError,
    PublicInputError,
};
use vstd::prelude::*;

verus! {

/// One recorded value: a small number, a field element in decimal text, or
/// a list of values.
#[derive(Debug, PartialEq, Eq)]
pub enum Value {
    Small(u8),
    Decimal(String),
    List(Vec<Value>),
}

/// A named field of the transcript with the value it took at each step.
#[derive(Debug, PartialEq, Eq)]
pub struct Column {
    pub name: String,
    pub steps: Vec<Value>,
}

/// What is wrong with the first decimal text in `v`, in reading order, that
/// is no field element; nothing where every decimal text in `v` is one.
pub open spec fn fault(v: Value) -> Option<FieldParseError>
    decreases v, 0nat,
{
    match v {
        Value::Small(_) => None,
        Value::Decimal(text) => match parse_outcome(text@) {
            Ok(_) => None,
            Err(reason) => Some(reason),
        },
        Value::List(items) => fault_from(items, 0),
    }
}

/// What is wrong with the first decimal text in `items`, from place `i` on,
/// that is no field element.
pub open spec fn fault_from(items: Vec<Value>, i: nat) -> Option<FieldParseError>
    decreases items, items@.len() - i,
{
    if i >= items@.len() {
        None
    } else {
        match fault(items@[i as int]) {
            Some(reason) => Some(reason),
            None => fault_from(items, i + 1),
        }
    }
}

/// Finds the first decimal text in `v` that is no field element.
pub fn find_fault(v: &Value) -> (r: Option<FieldParseError>)
    ensures
        r == fault(*v),
    decreases v,
{
    match v {
        Value::Small(_) => None,
        Value::Decimal(text) => match FieldElement::parse(text.as_str()) {
            Ok(_) => None,
            Err(reason) => Some(reason),
        },
        Value::List(items) => find_fault_in(items),
    }
}

/// Finds the first decimal text in `items` that is no field element.
fn find_fault_in(items: &Vec<Value>) -> (r: Option<FieldParseError>)
    ensures
        r == fault_from(*items, 0),
    decreases items,
{
    let mut i: usize = 0;
    while i < items.len()
        invariant
            i <= items@.len(),
            fault_from(*items, 0) == fault_from(*items, i as nat),
        decreases items@.len() - i,
    {
        proof {
            vstd::std_specs::vec::axiom_vec_index_decreases(*items, i as int);
        }
        let found = find_fault(&items[i]);
        if found.is_some() {
            return found;
        }
        i = i + 1;
    }
    None
}

/// Why recorded data is no transcript.
#[derive(Clone, Copy, Debug, PartialEq, Eq)]
pub enum DecodeError {
    /// The public input of step zero has no entry.
    MissingPublicInput,
    /// The field at `index` has another number of entries than the first.
    UnevenField { index: usize },
    /// The carried field does not have one entry more than the others.
    UnevenCarried,
    /// The column at `column` has the name of a column before it.
    RepeatedName { column: usize },
}

/// The first recorded value that holds a decimal text that is no field
/// element: its column, its place in the column, and what is wrong.
#[derive(Clone, Copy, Debug, PartialEq, Eq)]
pub struct ValueError {
    pub column: usize,
    pub step: usize,
    pub reason: FieldParseError,
}

/// Why a transcript could not be loaded.
#[derive(Clone, Copy, Debug, PartialEq, Eq)]
pub enum LoadError {
    Decode(DecodeError),
    Field(PublicInputError),
    Value(ValueError),
}

/// The number of events that the columns record: the length of the first
/// field, or, where there is no field, of the carried field after step zero.
pub open spec fn event_count(carried: Option<Column>, fields: Seq<Column>) -> nat {
    if fields.len() > 0 {
        fields[0].steps@.len()
    } else {
        match carried {
            Some(c) => (c.steps@.len() - 1) as nat,
            None => 0,
        }
    }
}

/// Whether every field has as many entries as the first.
pub open spec fn even(fields: Seq<Column>) -> bool {
    forall|j: int|
        0 <= j < fields.len() ==> (#[trigger] fields[j]).steps@.len() == fields[0].steps@.len()
}

/// Whether `j` is the place of the first field that has another number of
/// entries than the first.
pub open spec fn first_uneven(fields: Seq<Column>, j: int) -> bool {
    &&& 0 <= j < fields.len()
    &&& fields[j].steps@.len() != fields[0].steps@.len()
    &&& forall|i: int|
        0 <= i < j ==> (#[trigger] fields[i]).steps@.len() == fields[0].steps@.len()
}

/// Whether the carried field, if there is one, has an entry for step zero
/// and one for each event.
pub open spec fn carried_fits(carried: Option<Column>, fields: Seq<Column>) -> bool {
    carried matches Some(c) ==> c.steps@.len() == event_count(carried, fields) + 1
}

/// All columns in the order in which fold inputs bind them: the fields, then
/// the carried field.
pub open spec fn columns(carried: Option<Column>, fields: Seq<Column>) -> Seq<Column> {
    match carried {
        Some(c) => fields.push(c),
        None => fields,
    }
}

/// Whether the column at `j` has another name than every column before it.
pub open spec fn name_is_new(cols: Seq<Column>, j: int) -> bool {
    forall|i: int| 0 <= i < j ==> (#[trigger] cols[i]).name@ != cols[j].name@
}

/// Whether no two columns have the same name.
pub open spec fn distinct_names(cols: Seq<Column>) -> bool {
    forall|j: int| 0 <= j < cols.len() ==> #[trigger] name_is_new(cols, j)
}

/// Whether `j` is the place of the first column that has the name of a
/// column before it.
pub open spec fn first_repeated(cols: Seq<Column>, j: int) -> bool {
    &&& 0 <= j < cols.len()
    &&& !name_is_new(cols, j)
    &&& forall|i: int| 0 <= i < j ==> #[trigger] name_is_new(cols, i)
}

/// Whether every decimal text in the first `steps` entries of a column is a
/// field element.
pub open spec fn sound_until(c: Column, steps: int) -> bool {
    forall|s: int| 0 <= s < steps ==> fault(#[trigger] c.steps@[s]) is None
}

/// Whether every decimal text in a column is a field element.
pub open spec fn column_sound(c: Column) -> bool {
    sound_until(c, c.steps@.len() as int)
}

/// Whether every decimal text in every column is a field element.
pub open spec fn sound(cols: Seq<Column>) -> bool {
    forall|j: int| 0 <= j < cols.len() ==> column_sound(#[trigger] cols[j])
}

/// Whether `e` names the first value, column by column and within a column
/// step by step, that holds a decimal text that is no field element, and says
/// what is wrong with the first such text in it.
pub open spec fn first_fault(cols: Seq<Column>, e: ValueError) -> bool {
    &&& 0 <= e.column < cols.len()
    &&& 0 <= e.step < cols[e.column as int].steps@.len()
    &&& fault(cols[e.column as int].steps@[e.step as int]) == Some(e.reason)
    &&& sound_until(cols[e.column as int], e.step as int)
    &&& forall|j: int| 0 <= j < e.column ==> column_sound(#[trigger] cols[j])
}

/// Whether the columns have the shape of a transcript: even fields, a
/// fitting carried field, and no name twice.
pub open spec fn shapely(carried: Option<Column>, fields: Seq<Column>) -> bool {
    &&& even(fields)
    &&& carried_fits(carried, fields)
    &&& distinct_names(columns(carried, fields))
}

/// A column's name is new among all columns exactly when none of the fields
/// before it has it.
proof fn lemma_name_unused(carried: Option<Column>, fields: Seq<Column>, j: int, c: Column)
    requires
        0 <= j < columns(carried, fields).len(),
        j <= fields.len(),
        columns(carried, fields)[j] == c,
    ensures
        name_is_new(columns(carried, fields), j) <==> forall|i: int|
            0 <= i < j ==> (#[trigger] fields[i]).name@ != c.name@,
{
    let cols = columns(carried, fields);
    if name_is_new(cols, j) {
        assert forall|i: int| 0 <= i < j implies (#[trigger] fields[i]).name@ != c.name@ by {
            assert(cols[i] == fields[i]);
        }
    }
    if forall|i: int| 0 <= i < j ==> (#[trigger] fields[i]).name@ != c.name@ {
        assert forall|i: int| 0 <= i < j implies (#[trigger] cols[i]).name@ != cols[j].name@ by {
            assert(cols[i] == fields[i]);
        }
    }
}

/// Finds the first entry of a column that holds a decimal text that is no
/// field element.
fn find_fault_in_column(c: &Column) -> (r: Option<(usize, FieldParseError)>)
    ensures
        match r {
            Some((step, reason)) => {
                &&& step < c.steps@.len()
                &&& fault(c.steps@[step as int]) == Some(reason)
                &&& sound_until(*c, step as int)
            },
            None => column_sound(*c),
        },
{
    let mut s: usize = 0;
    while s < c.steps.len()
        invariant
            s <= c.steps@.len(),
            sound_until(*c, s as int),
        decreases c.steps@.len() - s,
    {
        match find_fault(&c.steps[s]) {
            Some(reason) => {
                return Some((s, reason));
            },
            None => {},
        }
        s = s + 1;
    }
    None
}

/// Tells whether the name of `c` is the name of none of the first `j`
/// fields.
fn name_unused(fields: &Vec<Column>, j: usize, c: &Column) -> (unused: bool)
    requires
        j <= fields@.len(),
    ensures
        unused == forall|i: int| 0 <= i < j ==> (#[trigger] fields@[i]).name@ != c.name@,
{
    let mut i: usize = 0;
    while i < j
        invariant
            i <= j <= fields@.len(),
            forall|x: int| 0 <= x < i ==> (#[trigger] fields@[x]).name@ != c.name@,
        decreases j - i,
    {
        if fields[i].name == c.name {
            return false;
        }
        i = i + 1;
    }
    true
}

/// A recorded computation of one step zero and a number of events.
///
/// Step zero has the initial public input. Each field has one entry for each
/// event. The carried field, the running value that enters each step, has an
/// entry for step zero as well, so its entry for an event stands one place
/// further than those of the other fields. No two columns have the same
/// name, and every decimal text in them is a field element.
#[derive(Debug)]
pub struct Transcript {
    start: Vec<FieldElement>,
    carried: Option<Column>,
    fields: Vec<Column>,
}

impl Transcript {
    /// The initial public input.
    pub closed spec fn start(&self) -> Seq<FieldElement> {
        self.start@
    }

    /// The carried field.
    pub closed spec fn carried(&self) -> Option<Column> {
        self.carried
    }

    /// The fields, in the order they were given.
    pub closed spec fn fields(&self) -> Seq<Column> {
        self.fields@
    }

    /// All columns: the fields, then the carried field.
    pub open spec fn columns(&self) -> Seq<Column> {
        columns(self.carried(), self.fields())
    }

    /// The number of events.
    pub open spec fn events(&self) -> nat {
        event_count(self.carried(), self.fields())
    }

    /// The number of steps: step zero and the events.
    pub open spec fn steps(&self) -> nat {
        self.events() + 1
    }

    /// What holds of every transcript.
    pub open spec fn wf(&self) -> bool {
        &&& self.start().len() > 0
        &&& shapely(self.carried(), self.fields())
        &&& sound(self.columns())
    }

    #[verifier::type_invariant]
    spec fn inv(self) -> bool {
        self.wf()
    }

    /// Makes a transcript of a public input in decimal texts, a carried
    /// field if one was recorded, and the fields.
    ///
    /// What is looked at, in this order: that there is a public input, that
    /// the fields are even, that the carried field fits, that no name comes
    /// twice, that the public input is made of field elements, and that the
    /// columns hold no decimal text that is no field element. The first of
    /// these that does not hold is the error.
    pub fn new(start: &Vec<String>, carried: Option<Column>, fields: Vec<Column>) -> (r: Result<
        Transcript,
        LoadError,
    >)
        ensures
            match r {
                Ok(t) => {
                    &&& t.wf()
                    &&& t.fields() == fields@
                    &&& t.carried() == carried
                    &&& t.start().len() == start@.len()
                    &&& forall|i: int|
                        0 <= i < start@.len() ==> parse_outcome(#[trigger] start@[i]@) == Ok::<
                            nat,
                            FieldParseError,
                        >(t.start()[i]@)
                },
                Err(LoadError::Decode(DecodeError::MissingPublicInput)) => start@.len() == 0,
                Err(LoadError::Decode(DecodeError::UnevenField { index })) => {
                    &&& start@.len() > 0
                    &&& first_uneven(fields@, index as int)
                },
                Err(LoadError::Decode(DecodeError::UnevenCarried)) => {
                    &&& start@.len() > 0
                    &&& even(fields@)
                    &&& !carried_fits(carried, fields@)
                },
                Err(LoadError::Decode(DecodeError::RepeatedName { column })) => {
                    &&& start@.len() > 0
                    &&& even(fields@)
                    &&& carried_fits(carried, fields@)
                    &&& first_repeated(columns(carried, fields@), column as int)
                },
                Err(LoadError::Field(e)) => {
                    &&& start@.len() > 0
                    &&& shapely(carried, fields@)
                    &&& first_unreadable(start@, e.index as int)
                    &&& parse_outcome(start@[e.index as int]@) == Err::<nat, FieldParseError>(
                        e.reason,
                    )
                },
                Err(LoadError::Value(e)) => {
                    &&& start@.len() > 0
                    &&& shapely(carried, fields@)
                    &&& forall|i: int|
                        0 <= i < start@.len() ==> parse_outcome(#[trigger] start@[i]@) is Ok
                    &&& first_fault(columns(carried, fields@), e)
                },
            },
    {
        if start.len() == 0 {
            return Err(LoadError::Decode(DecodeError::MissingPublicInput));
        }
        let n = fields.len();
        let mut j: usize = 0;
        while j < n
            invariant
                start@.len() > 0,
                n == fields@.len(),
                j <= n,
                forall|i: int|
                    0 <= i < j ==> (#[trigger] fields@[i]).steps@.len() == fields@[0].steps@.len(),
            decreases n - j,
        {
            if fields[j].steps.len() != fields[0].steps.len() {
                return Err(LoadError::Decode(DecodeError::UnevenField { index: j }));
            }
            j = j + 1;
        }
        let fits = match &carried {
            Some(c) => {
                if n > 0 {
                    c.steps.len() >= 1 && c.steps.len() - 1 == fields[0].steps.len()
                } else {
                    c.steps.len() >= 1
                }
            },
            None => true,
        };
        if !fits {
            return Err(LoadError::Decode(DecodeError::UnevenCarried));
        }
        let ghost cols = columns(carried, fields@);
        let mut j: usize = 0;
        while j < n
            invariant
                start@.len() > 0,
                even(fields@),
                carried_fits(carried, fields@),
                n == fields@.len(),
                j <= n,
                cols == columns(carried, fields@),
                forall|i: int| 0 <= i < j ==> #[trigger] name_is_new(cols, i),
            decreases n - j,
        {
            let unused = name_unused(&fields, j, &fields[j]);
            proof {
                lemma_name_unused(carried, fields@, j as int, fields@[j as int]);
            }
            if !unused {
                return Err(LoadError::Decode(DecodeError::RepeatedName { column: j }));
            }
            j = j + 1;
        }
        match &carried {
            Some(c) => {
                let unused = name_unused(&fields, n, c);
                proof {
                    lemma_name_unused(carried, fields@, n as int, *c);
                }
                if !unused {
                    return Err(LoadError::Decode(DecodeError::RepeatedName { column: n }));
                }
            },
            None => {},
        }
        assert(distinct_names(cols));
        let elements = match decode_public_input(start) {
            Ok(elements) => elements,
            Err(e) => {
                return Err(LoadError::Field(e));
            },
        };
        let mut j: usize = 0;
        while j < n
            invariant
                start@.len() > 0,
                shapely(carried, fields@),
                forall|i: int| 0 <= i < start@.len() ==> parse_outcome(#[trigger] start@[i]@) is Ok,
                n == fields@.len(),
                j <= n,
                cols == columns(carried, fields@),
                forall|i: int| 0 <= i < j ==> column_sound(#[trigger] cols[i]),
            decreases n - j,
        {
            assert(cols[j as int] == fields@[j as int]);
            match find_fault_in_column(&fields[j]) {
                Some((step, reason)) => {
                    return Err(LoadError::Value(ValueError { column: j, step, reason }));
                },
                None => {},
            }
            j = j + 1;
        }
        match &carried {
            Some(c) => {
                assert(cols[n as int] == *c);
                match find_fault_in_column(c) {
                    Some((step, reason)) => {
                        return Err(LoadError::Value(ValueError { column: n, step, reason }));
                    },
                    None => {},
                }
            },
            None => {},
        }
        assert(sound(cols));
        Ok(Transcript { start: elements, carried, fields })
    }

    /// The number of events.
    pub fn num_events(&self) -> (n: usize)
        ensures
            n == self.events(),
            self.wf(),
    {
        proof {
            use_type_invariant(self);
        }
        if self.fields.len() > 0 {
            self.fields[0].steps.len()
        } else {
            match &self.carried {
                Some(c) => c.steps.len() - 1,
                None => 0,
            }
        }
    }

    /// The number of fields.
    pub fn num_fields(&self) -> (n: usize)
        ensures
            n == self.fields().len(),
    {
        self.fields.len()
    }

    /// The field at place `j`.
    pub fn field(&self, j: usize) -> (c: &Column)
        requires
            j < self.fields().len(),
        ensures
            *c == self.fields()[j as int],
            c.steps@.len() == self.events(),
    {
        proof {
            use_type_invariant(self);
        }
        &self.fields[j]
    }

    /// The carried field, if one was recorded.
    pub fn carried_field(&self) -> (c: Option<&Column>)
        ensures
            match c {
                Some(c) => self.carried() == Some(*c) && c.steps@.len() == self.events() + 1,
                None => self.carried() is None,
            },
    {
        proof {
            use_type_invariant(self);
        }
        self.carried.as_ref()
    }

    /// The initial public input.
    pub fn public_input(&self) -> (start: &Vec<FieldElement>)
        ensures
            start@ == self.start(),
            start@.len() > 0,
    {
        proof {
            use_type_invariant(self);
        }
        &self.start
    }
}

} // verus!
