//! HTTP request methods.

use vstd::prelude::*;
use vstd::string::*;

verus! {

/// A standard HTTP request method.
#[derive(Clone, Copy, Debug, PartialEq, Eq, Structural)]
pub enum Method {
    Get,
    Post,
    Put,
    Delete,
    Patch,
    Head,
    Options,
    Connect,
    Trace,
}

impl Method {
    /// The method's name as it is written on the wire.
    pub open spec fn name(self) -> Seq<char> {
        match self {
            Method::Get => "GET"@,
            Method::Post => "POST"@,
            Method::Put => "PUT"@,
            Method::Delete => "DELETE"@,
            Method::Patch => "PATCH"@,
            Method::Head => "HEAD"@,
            Method::Options => "OPTIONS"@,
            Method::Connect => "CONNECT"@,
            Method::Trace => "TRACE"@,
        }
    }

    /// The method's name as it is written on the wire.
    pub fn as_str(&self) -> (name: &'static str)
        ensures
            name@ == self.name(),
    {
        match self {
            Method::Get => "GET",
            Method::Post => "POST",
            Method::Put => "PUT",
            Method::Delete => "DELETE",
            Method::Patch => "PATCH",
            Method::Head => "HEAD",
            Method::Options => "OPTIONS",
            Method::Connect => "CONNECT",
            Method::Trace => "TRACE",
        }
    }

    /// The method whose wire name is `name`, if there is one. Names are
    /// case-sensitive.
    pub open spec fn named(name: Seq<char>) -> Option<Method> {
        if name == "GET"@ {
            Some(Method::Get)
        } else if name == "POST"@ {
            Some(Method::Post)
        } else if name == "PUT"@ {
            Some(Method::Put)
        } else if name == "DELETE"@ {
            Some(Method::Delete)
        } else if name == "PATCH"@ {
            Some(Method::Patch)
        } else if name == "HEAD"@ {
            Some(Method::Head)
        } else if name == "OPTIONS"@ {
            Some(Method::Options)
        } else if name == "CONNECT"@ {
            Some(Method::Connect)
        } else if name == "TRACE"@ {
            Some(Method::Trace)
        } else {
            None
        }
    }

    /// The method whose wire name is `name`, if there is one. Names are
    /// case-sensitive.
    pub fn from_name(name: &str) -> (method: Option<Method>)
        ensures
            method == Method::named(name@),
            match method {
                Some(m) => m.name() == name@,
                None => forall|m: Method| m.name() != name@,
            },
    {
        let text = name.to_owned();
        if text == String::from_str("GET") {
            Some(Method::Get)
        } else if text == String::from_str("POST") {
            Some(Method::Post)
        } else if text == String::from_str("PUT") {
            Some(Method::Put)
        } else if text == String::from_str("DELETE") {
            Some(Method::Delete)
        } else if text == String::from_str("PATCH") {
            Some(Method::Patch)
        } else if text == String::from_str("HEAD") {
            Some(Method::Head)
        } else if text == String::from_str("OPTIONS") {
            Some(Method::Options)
        } else if text == String::from_str("CONNECT") {
            Some(Method::Connect)
        } else if text == String::from_str("TRACE") {
            Some(Method::Trace)
        } else {
            None
        }
    }
}

} // verus!
