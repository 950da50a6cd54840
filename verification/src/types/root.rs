use std::marker::PhantomData;
use vstd::prelude::*;

verus! {

/// A base datatype: the format that reading its values may need, and a
/// marker for the kind of value.
#[derive(Debug)]
pub struct RootType<T> {
    pub format: String,
    pub system_type: PhantomData<T>,
}

impl<T> RootType<T> {
    pub fn new(fmt: &str) -> (r: RootType<T>)
        ensures
            r.format@ == fmt@,
    {
        RootType { format: fmt.to_owned(), system_type: PhantomData }
    }

    pub fn set_format(&mut self, fmt: &str)
        ensures
            final(self).format@ == fmt@,
    {
        self.format = fmt.to_owned();
    }

    pub fn get_format(&self) -> (r: &str)
        ensures
            r@ == self.format@,
    {
        self.format.as_str()
    }
}

} // verus!
