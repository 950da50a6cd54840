use vstd::prelude::*;
use vstd::string::*;
use crate::error::RbfError;
use crate::text::{str_eq, str_less};
use crate::types::base::{BaseType, Kind};
use crate::types::root::RootType;

verus! {

pub type StringType = RootType<String>;

impl BaseType for StringType {
    open spec fn kind(&self) -> Kind {
        Kind::Text
    }

    open spec fn format_text(&self) -> Seq<char> {
        self.format@
    }

    fn get_name(&self) -> (r: &'static str) {
        assert(self.kind() == Kind::Text);
        Kind::Text.name()
    }

    fn set_format(&mut self, fmt: &str) {
        self.format = fmt.to_owned();
    }

    fn get_format(&self) -> (r: &str) {
        self.format.as_str()
    }

    fn eq(&self, lhs: &str, rhs: &str) -> (r: Result<bool, RbfError>) {
        Ok(str_eq(lhs, rhs))
    }

    fn lt(&self, lhs: &str, rhs: &str) -> (r: Result<bool, RbfError>) {
        Ok(str_less(lhs, rhs))
    }

    fn gt(&self, lhs: &str, rhs: &str) -> (r: Result<bool, RbfError>) {
        Ok(str_less(rhs, lhs))
    }
}

} // verus!
