//! The kinds of records of the event log and the permissions that an
//! accessor of the log has over them.
use vstd::prelude::*;
use core::marker::PhantomData;

verus! {

/// A kind of record kept in the log.
pub trait DataType {}

/// An accessor that may insert records of kind `D`.
pub trait Insert<D: DataType> {}

/// An accessor that may read records of kind `D`.
pub trait Get<D: DataType> {}

/// An accessor that may update records of kind `D`.
pub trait Update<D: DataType> {}

/// An accessor that may create the log's tables.
pub trait SetupAccessor {}

/// The accessor that may do everything.
pub struct All;

impl<D: DataType> Insert<D> for All {}

impl<D: DataType> Get<D> for All {}

impl<D: DataType> Update<D> for All {}

impl SetupAccessor for All {}

/// A group of records, under a key of its own.
pub struct OccurrenceGroup {}

impl DataType for OccurrenceGroup {}

/// What creates the tables of a kind of record.
pub trait SetupTrait {
    /// The statements that create the tables.
    fn setup_tables(&self) -> &'static str;
}

/// The table setup of records of kind `D`.
pub struct Setup<D>(pub PhantomData<D>);

impl<D> Default for Setup<D> {
    /// The setup of kind `D`.
    fn default() -> (s: Setup<D>)
        ensures
            s == Setup::<D>(PhantomData),
    {
        Setup(PhantomData)
    }
}

/// An insert that found its record already in the log.
#[derive(Clone, Copy, Debug, PartialEq, Eq, Structural)]
pub enum Idempotent {
    AlreadyExists,
}

} // verus!
