//! The name record kind: a key and the person's first and last name, keyed
//! by the whole-text integer of its record-id element.

use vstd::prelude::*;

use crate::digits::parse_usize_or_zero;
use crate::digits::parse_usize_spec;
use crate::extract::FromXmlEvents;
use crate::text::str_eq;

verus! {

/// A lookup record giving the names filed under a key.
#[derive(Debug)]
pub struct RecordName {
    /// The non-negative integer key; zero when the key text was unparseable.
    pub record_id: usize,
    /// The person's first name.
    pub first_name: String,
    /// The person's last name.
    pub last_name: String,
}

/// The model of a name record: its key and the two names as character
/// sequences.
pub struct RecordNameV {
    /// The key.
    pub record_id: usize,
    /// The first name.
    pub first_name: Seq<char>,
    /// The last name.
    pub last_name: Seq<char>,
}

impl View for RecordName {
    type V = RecordNameV;

    open spec fn view(&self) -> RecordNameV {
        RecordNameV {
            record_id: self.record_id,
            first_name: self.first_name@,
            last_name: self.last_name@,
        }
    }
}

impl Clone for RecordName {
    /// An exact copy, field by field.
    fn clone(&self) -> (r: Self)
        ensures
            r == *self,
    {
        RecordName {
            record_id: self.record_id,
            first_name: self.first_name.clone(),
            last_name: self.last_name.clone(),
        }
    }
}

impl PartialEq for RecordName {
    /// Records compare by key alone, deliberately coarser than structural
    /// equality.
    fn eq(&self, other: &Self) -> (r: bool) {
        self.record_id == other.record_id
    }
}

impl vstd::std_specs::cmp::PartialEqSpecImpl for RecordName {
    open spec fn obeys_eq_spec() -> bool {
        true
    }

    open spec fn eq_spec(&self, other: &Self) -> bool {
        self.record_id == other.record_id
    }
}

impl PartialOrd for RecordName {
    /// Records order by key alone.
    fn partial_cmp(&self, other: &Self) -> (r: Option<core::cmp::Ordering>) {
        if self.record_id < other.record_id {
            Some(core::cmp::Ordering::Less)
        } else if self.record_id == other.record_id {
            Some(core::cmp::Ordering::Equal)
        } else {
            Some(core::cmp::Ordering::Greater)
        }
    }
}

impl vstd::std_specs::cmp::PartialOrdSpecImpl for RecordName {
    open spec fn obeys_partial_cmp_spec() -> bool {
        true
    }

    open spec fn partial_cmp_spec(&self, other: &Self) -> Option<core::cmp::Ordering> {
        if self.record_id < other.record_id {
            Some(core::cmp::Ordering::Less)
        } else if self.record_id == other.record_id {
            Some(core::cmp::Ordering::Equal)
        } else {
            Some(core::cmp::Ordering::Greater)
        }
    }
}

impl Default for RecordName {
    /// The untouched record: key zero and both names empty.
    fn default() -> (r: Self)
        ensures
            r@ == RecordName::spec_default(),
    {
        RecordName { record_id: 0, first_name: String::new(), last_name: String::new() }
    }
}

/// The recognized element names of a name record.
#[derive(Debug, Clone, Copy, PartialEq, Eq, Structural)]
pub enum RecordNameFieldType {
    /// The key element.
    RecordId,
    /// The first-name element.
    FirstName,
    /// The last-name element.
    LastName,
}

impl RecordNameFieldType {
    /// The field identifier a raw element name stands for, if any.
    pub open spec fn spec_try_from(name: Seq<char>) -> Option<RecordNameFieldType> {
        if name == "RecordId"@ {
            Some(RecordNameFieldType::RecordId)
        } else if name == "PersonFirstNm"@ {
            Some(RecordNameFieldType::FirstName)
        } else if name == "PersonLastNm"@ {
            Some(RecordNameFieldType::LastName)
        } else {
            None
        }
    }

    /// Classifies a raw element name by exact, case-sensitive match; every
    /// other name is irrelevant noise and classifies to nothing.
    pub fn try_from(name: &str) -> (r: Option<RecordNameFieldType>)
        ensures
            r == RecordNameFieldType::spec_try_from(name@),
    {
        if str_eq(name, "RecordId") {
            Some(RecordNameFieldType::RecordId)
        } else if str_eq(name, "PersonFirstNm") {
            Some(RecordNameFieldType::FirstName)
        } else if str_eq(name, "PersonLastNm") {
            Some(RecordNameFieldType::LastName)
        } else {
            None
        }
    }
}

impl FromXmlEvents for RecordName {
    type FieldType = RecordNameFieldType;

    open spec fn spec_default() -> RecordNameV {
        RecordNameV { record_id: 0, first_name: Seq::empty(), last_name: Seq::empty() }
    }

    open spec fn spec_classify(name: Seq<char>) -> Option<RecordNameFieldType> {
        RecordNameFieldType::spec_try_from(name)
    }

    /// The key slot parses the whole text as the key, falling back to zero;
    /// the name slots store the text itself.
    open spec fn spec_insert(
        v: RecordNameV,
        f: RecordNameFieldType,
        text: Seq<char>,
    ) -> RecordNameV {
        match f {
            RecordNameFieldType::RecordId => RecordNameV {
                record_id: parse_usize_spec(text),
                ..v
            },
            RecordNameFieldType::FirstName => RecordNameV { first_name: text, ..v },
            RecordNameFieldType::LastName => RecordNameV { last_name: text, ..v },
        }
    }

    open spec fn spec_is_last(f: RecordNameFieldType) -> bool {
        f == RecordNameFieldType::LastName
    }

    fn default_record() -> (r: Self) {
        RecordName { record_id: 0, first_name: String::new(), last_name: String::new() }
    }

    fn classify(name: &str) -> (r: Option<RecordNameFieldType>) {
        RecordNameFieldType::try_from(name)
    }

    fn insert_xml_value(&mut self, f: RecordNameFieldType, text: &str) {
        match f {
            RecordNameFieldType::RecordId => {
                self.record_id = parse_usize_or_zero(text);
            },
            RecordNameFieldType::FirstName => {
                self.first_name = String::from_str(text);
            },
            RecordNameFieldType::LastName => {
                self.last_name = String::from_str(text);
            },
        }
    }

    fn is_last_field(f: RecordNameFieldType) -> (r: bool) {
        matches!(f, RecordNameFieldType::LastName)
    }
}

} // verus!
