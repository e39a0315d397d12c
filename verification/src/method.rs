use vstd::prelude::*;

verus! {

/// An HTTP request method: the nine standard verbs, plus a fallback that
/// carries the raw token of a non-standard verb.
#[derive(Debug)]
pub enum Method {
    Get,
    Post,
    Put,
    Delete,
    Head,
    Options,
    Connect,
    Patch,
    Trace,
    Other(String),
}

/// Mathematical model of a [`Method`]: the same shape, with the raw token of a
/// non-standard verb abstracted to its character sequence.
pub ghost enum MethodModel {
    Get,
    Post,
    Put,
    Delete,
    Head,
    Options,
    Connect,
    Patch,
    Trace,
    Other(Seq<char>),
}

impl View for Method {
    type V = MethodModel;

    open spec fn view(&self) -> MethodModel {
        match self {
            Method::Get => MethodModel::Get,
            Method::Post => MethodModel::Post,
            Method::Put => MethodModel::Put,
            Method::Delete => MethodModel::Delete,
            Method::Head => MethodModel::Head,
            Method::Options => MethodModel::Options,
            Method::Connect => MethodModel::Connect,
            Method::Patch => MethodModel::Patch,
            Method::Trace => MethodModel::Trace,
            Method::Other(t) => MethodModel::Other(t@),
        }
    }
}

impl Clone for Method {
    fn clone(&self) -> (res: Method)
        ensures
            res@ == self@,
    {
        match self {
            Method::Get => Method::Get,
            Method::Post => Method::Post,
            Method::Put => Method::Put,
            Method::Delete => Method::Delete,
            Method::Head => Method::Head,
            Method::Options => Method::Options,
            Method::Connect => Method::Connect,
            Method::Patch => Method::Patch,
            Method::Trace => Method::Trace,
            Method::Other(t) => Method::Other(t.clone()),
        }
    }
}

impl PartialEq for Method {
    fn eq(&self, other: &Method) -> (r: bool) {
        match (self, other) {
            (Method::Get, Method::Get) => true,
            (Method::Post, Method::Post) => true,
            (Method::Put, Method::Put) => true,
            (Method::Delete, Method::Delete) => true,
            (Method::Head, Method::Head) => true,
            (Method::Options, Method::Options) => true,
            (Method::Connect, Method::Connect) => true,
            (Method::Patch, Method::Patch) => true,
            (Method::Trace, Method::Trace) => true,
            (Method::Other(a), Method::Other(b)) => *a == *b,
            _ => false,
        }
    }
}

impl vstd::std_specs::cmp::PartialEqSpecImpl for Method {
    open spec fn obeys_eq_spec() -> bool {
        true
    }

    open spec fn eq_spec(&self, other: &Method) -> bool {
        self@ == other@
    }
}

/// Case-insensitive equality of two characters, where case means ASCII case.
pub open spec fn char_icase_eq(x: char, y: char) -> bool {
    x == y || ('A' <= y && y <= 'Z' && x as u32 == y as u32 + 32) || ('A' <= x && x <= 'Z'
        && y as u32 == x as u32 + 32)
}

/// Case-insensitive equality of two character sequences (ASCII case only).
pub open spec fn icase_eq(a: Seq<char>, b: Seq<char>) -> bool {
    a.len() == b.len() && forall|i: int| 0 <= i < a.len() ==> char_icase_eq(a[i], b[i])
}

/// Compares two strings for equality up to ASCII case.
pub fn str_icase_eq(a: &str, b: &str) -> (r: bool)
    ensures
        r == icase_eq(a@, b@),
{
    let alen = a.unicode_len();
    let blen = b.unicode_len();
    if alen != blen {
        return false;
    }
    let mut i: usize = 0;
    while i < alen
        invariant
            0 <= i <= alen,
            alen == a@.len(),
            blen == b@.len(),
            alen == blen,
            forall|k: int| 0 <= k < i ==> char_icase_eq(a@[k], b@[k]),
        decreases alen - i,
    {
        let x = a.get_char(i);
        let y = b.get_char(i);
        let same = x == y || ('A' <= y && y <= 'Z' && x as u32 == y as u32 + 32) || ('A' <= x
            && x <= 'Z' && y as u32 == x as u32 + 32);
        if !same {
            return false;
        }
        i = i + 1;
    }
    true
}

/// The token a [`MethodModel`] prints as: the canonical upper-case name of a
/// standard verb, or the raw token of a non-standard one.
pub open spec fn spec_token(m: MethodModel) -> Seq<char> {
    match m {
        MethodModel::Get => "GET"@,
        MethodModel::Post => "POST"@,
        MethodModel::Put => "PUT"@,
        MethodModel::Delete => "DELETE"@,
        MethodModel::Head => "HEAD"@,
        MethodModel::Options => "OPTIONS"@,
        MethodModel::Connect => "CONNECT"@,
        MethodModel::Patch => "PATCH"@,
        MethodModel::Trace => "TRACE"@,
        MethodModel::Other(t) => t,
    }
}

/// The method a configuration token names: a standard verb matched without
/// regard to ASCII case, and any other token kept raw.
pub open spec fn spec_from_token(t: Seq<char>) -> MethodModel {
    if icase_eq(t, "GET"@) {
        MethodModel::Get
    } else if icase_eq(t, "POST"@) {
        MethodModel::Post
    } else if icase_eq(t, "PUT"@) {
        MethodModel::Put
    } else if icase_eq(t, "DELETE"@) {
        MethodModel::Delete
    } else if icase_eq(t, "HEAD"@) {
        MethodModel::Head
    } else if icase_eq(t, "OPTIONS"@) {
        MethodModel::Options
    } else if icase_eq(t, "CONNECT"@) {
        MethodModel::Connect
    } else if icase_eq(t, "PATCH"@) {
        MethodModel::Patch
    } else if icase_eq(t, "TRACE"@) {
        MethodModel::Trace
    } else {
        MethodModel::Other(t)
    }
}

impl Method {
    /// Parses a configuration token into a method, matching the standard verbs
    /// without regard to ASCII case and keeping any other token raw.
    pub fn from_token(token: &str) -> (r: Method)
        ensures
            r@ == spec_from_token(token@),
    {
        if str_icase_eq(token, "GET") {
            Method::Get
        } else if str_icase_eq(token, "POST") {
            Method::Post
        } else if str_icase_eq(token, "PUT") {
            Method::Put
        } else if str_icase_eq(token, "DELETE") {
            Method::Delete
        } else if str_icase_eq(token, "HEAD") {
            Method::Head
        } else if str_icase_eq(token, "OPTIONS") {
            Method::Options
        } else if str_icase_eq(token, "CONNECT") {
            Method::Connect
        } else if str_icase_eq(token, "PATCH") {
            Method::Patch
        } else if str_icase_eq(token, "TRACE") {
            Method::Trace
        } else {
            Method::Other(token.to_owned())
        }
    }

    /// The canonical token of this method, as written into an `Allow` header.
    pub fn as_str(&self) -> (r: String)
        ensures
            r@ == spec_token(self@),
    {
        match self {
            Method::Get => "GET".to_owned(),
            Method::Post => "POST".to_owned(),
            Method::Put => "PUT".to_owned(),
            Method::Delete => "DELETE".to_owned(),
            Method::Head => "HEAD".to_owned(),
            Method::Options => "OPTIONS".to_owned(),
            Method::Connect => "CONNECT".to_owned(),
            Method::Patch => "PATCH".to_owned(),
            Method::Trace => "TRACE".to_owned(),
            Method::Other(t) => t.clone(),
        }
    }
}

} // verus!
