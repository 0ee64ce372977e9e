//! Request methods, and the methods that an endpoint answers to.

use vstd::prelude::*;
use vstd::std_specs::cmp::PartialEqSpecImpl;
use vstd::string::StringExecFns;

verus! {

/// A request method, held as its token: `GET`, `POST` and so on. Two methods
/// are equal when their tokens are, letter case included.
#[derive(Clone, Debug)]
pub struct Method {
    token: String,
}

impl View for Method {
    type V = Seq<char>;

    closed spec fn view(&self) -> Seq<char> {
        self.token@
    }
}

impl Method {
    /// The method with the given token.
    pub fn new(token: &str) -> (method: Method)
        ensures
            method@ == token@,
    {
        Method { token: String::from_str(token) }
    }

    /// The method's token.
    pub fn as_str(&self) -> (token: &str)
        ensures
            token@ == self@,
    {
        self.token.as_str()
    }
}

impl PartialEq for Method {
    fn eq(&self, other: &Method) -> (r: bool) {
        self.token == other.token
    }
}

impl PartialEqSpecImpl for Method {
    open spec fn obeys_eq_spec() -> bool {
        true
    }

    open spec fn eq_spec(&self, other: &Method) -> bool {
        self@ == other@
    }
}

/// The methods that an endpoint answers to.
#[derive(Clone, Debug)]
pub enum RouteMethod {
    /// Every method.
    All,
    /// This method and no other.
    Method(Method),
}

impl View for RouteMethod {
    type V = Option<Seq<char>>;

    /// `None` for every method, else the token of the one method.
    open spec fn view(&self) -> Option<Seq<char>> {
        match self {
            RouteMethod::All => None,
            RouteMethod::Method(m) => Some(m@),
        }
    }
}

/// Whether an endpoint registered for `route` answers to the method `token`.
pub open spec fn admits(route: Option<Seq<char>>, token: Seq<char>) -> bool {
    match route {
        None => true,
        Some(own) => own == token,
    }
}

impl PartialEq<Method> for RouteMethod {
    /// `All` equals every method, a specific method only itself.
    fn eq(&self, other: &Method) -> (r: bool) {
        match self {
            RouteMethod::All => true,
            RouteMethod::Method(m) => m == other,
        }
    }
}

impl PartialEqSpecImpl<Method> for RouteMethod {
    open spec fn obeys_eq_spec() -> bool {
        true
    }

    open spec fn eq_spec(&self, other: &Method) -> bool {
        admits(self@, other@)
    }
}

} // verus!
