use vstd::prelude::*;

use crate::date::AppDate;

verus! {

/// An engineer's identity: the 128-bit value of a UUID.
#[derive(Clone, Copy, Debug, PartialEq, Eq, Hash, Structural)]
pub struct EngineerIdentifier {
    pub value: u128,
}

impl EngineerIdentifier {
    pub fn new(value: u128) -> (r: Self)
        ensures
            r.value == value,
    {
        EngineerIdentifier { value }
    }
}

/// What an engineer is: a name, an identity and the day number of the last service.
pub ghost struct EngineerView {
    pub name: Seq<char>,
    pub identifier: u128,
    pub last_served: int,
}

#[derive(Clone, Debug, PartialEq, Eq, Hash)]
pub struct Engineer {
    name: String,
    identifier: EngineerIdentifier,
    last_time_served: AppDate,
}

impl View for Engineer {
    type V = EngineerView;

    closed spec fn view(&self) -> EngineerView {
        EngineerView {
            name: self.name@,
            identifier: self.identifier.value,
            last_served: self.last_time_served@,
        }
    }
}

impl Engineer {
    pub fn new(name: &str, identifier: EngineerIdentifier, last_time_served: AppDate) -> (r: Self)
        ensures
            r@ == (EngineerView {
                name: name@,
                identifier: identifier.value,
                last_served: last_time_served@,
            }),
    {
        Engineer { name: name.to_owned(), identifier, last_time_served }
    }

    pub fn identifier(&self) -> (r: EngineerIdentifier)
        ensures
            r.value == self@.identifier,
    {
        self.identifier
    }

    pub fn name(&self) -> (r: &str)
        ensures
            r@ == self@.name,
    {
        self.name.as_str()
    }

    pub fn last_time_served(&self) -> (r: AppDate)
        ensures
            r@ == self@.last_served,
    {
        self.last_time_served
    }

    /// The same engineer, having last served on `date`.
    pub fn served_on(&self, date: AppDate) -> (r: Self)
        ensures
            r@ == (EngineerView { last_served: date@, ..self@ }),
    {
        Engineer { name: self.name.clone(), identifier: self.identifier, last_time_served: date }
    }

    /// A copy of this engineer.
    pub fn duplicate(&self) -> (r: Self)
        ensures
            r@ == self@,
    {
        self.served_on(self.last_time_served)
    }
}

} // verus!
