use vstd::prelude::*;
use crate::pattern::str_eq;

verus! {

/// Whether a character may stand in an HTTP header value: horizontal tab or
/// visible ASCII including space (code 9, or 32 to 126). This is the rule
/// the wire format enforces.
pub open spec fn valid_header_char(c: char) -> bool {
    c as u32 == 9 || (c as u32 >= 32 && c as u32 <= 126)
}

/// Whether a string may stand as an HTTP header value: every character
/// satisfies [`valid_header_char`]. A value that breaks it is refused by
/// [`HttpResponse::add_header`].
pub open spec fn valid_header_value(s: Seq<char>) -> bool {
    forall|i: int| 0 <= i < s.len() ==> valid_header_char(s[i])
}

/// Checks a header value against [`valid_header_value`].
pub fn is_valid_header_value(value: &str) -> (r: bool)
    ensures
        r == valid_header_value(value@),
{
    let n = value.unicode_len();
    let mut i: usize = 0;
    while i < n
        invariant
            0 <= i <= n,
            n == value@.len(),
            forall|k: int| 0 <= k < i ==> valid_header_char(value@[k]),
        decreases n - i,
    {
        let c = value.get_char(i);
        let code = c as u32;
        if !(code == 9 || (code >= 32 && code <= 126)) {
            return false;
        }
        i = i + 1;
    }
    true
}

/// The header list without the entries of one name: what remains when a new
/// value replaces everything registered under that name before.
pub open spec fn strip_header(hs: Seq<(String, String)>, name: Seq<char>) -> Seq<(String, String)>
    decreases hs.len(),
{
    if hs.len() == 0 {
        Seq::empty()
    } else {
        let rest = strip_header(hs.drop_first(), name);
        if hs[0].0@ == name {
            rest
        } else {
            seq![hs[0]] + rest
        }
    }
}

/// An outgoing HTTP response: a status code, the headers as an ordered
/// multimap, and the body bytes.
pub struct HttpResponse {
    pub status: u16,
    pub headers: Vec<(String, String)>,
    pub body: Vec<u8>,
}

impl HttpResponse {
    /// A response with the given status and body and no headers.
    pub fn new(status: u16, body: Vec<u8>) -> (r: HttpResponse)
        ensures
            r.status == status,
            r.headers@ == Seq::<(String, String)>::empty(),
            r.body == body,
    {
        HttpResponse { status, headers: Vec::new(), body }
    }

    /// A response with the given status, headers and body.
    pub fn with_headers(status: u16, headers: Vec<(String, String)>, body: Vec<u8>) -> (r:
        HttpResponse)
        ensures
            r.status == status,
            r.headers == headers,
            r.body == body,
    {
        HttpResponse { status, headers, body }
    }

    /// Sets one header. A valid value replaces everything registered under
    /// the same name before, and stands last in the list; a value the wire
    /// format refuses (see [`valid_header_value`]) is dropped silently and
    /// leaves the response unchanged.
    pub fn add_header(&mut self, name: String, value: String)
        ensures
            final(self).status == old(self).status,
            final(self).body == old(self).body,
            valid_header_value(value@) ==> final(self).headers@ == strip_header(
                old(self).headers@,
                name@,
            ).push((name, value)),
            !valid_header_value(value@) ==> *final(self) == *old(self),
    {
        if !is_valid_header_value(value.as_str()) {
            return ;
        }
        let mut rest: Vec<(String, String)> = Vec::new();
        core::mem::swap(&mut self.headers, &mut rest);
        let ghost hs0 = rest@;
        let mut kept: Vec<(String, String)> = Vec::new();
        proof {
            assert(kept@ + strip_header(rest@, name@) =~= strip_header(hs0, name@));
        }
        while rest.len() > 0
            invariant
                self.status == old(self).status,
                self.body == old(self).body,
                kept@ + strip_header(rest@, name@) =~= strip_header(hs0, name@),
            decreases rest@.len(),
        {
            let ghost prev = rest@;
            let pair = rest.remove(0);
            proof {
                assert(rest@ =~= prev.drop_first());
                assert(strip_header(prev, name@) == (if prev[0].0@ == name@ {
                    strip_header(prev.drop_first(), name@)
                } else {
                    seq![prev[0]] + strip_header(prev.drop_first(), name@)
                }));
            }
            if str_eq(pair.0.as_str(), name.as_str()) {
                proof {
                    assert(kept@ + strip_header(rest@, name@) =~= strip_header(hs0, name@));
                }
            } else {
                let ghost kept0 = kept@;
                kept.push(pair);
                proof {
                    assert(kept@ + strip_header(rest@, name@) =~= kept0 + (seq![prev[0]]
                        + strip_header(rest@, name@)));
                }
            }
        }
        proof {
            assert(strip_header(rest@, name@) =~= Seq::<(String, String)>::empty());
            assert(kept@ =~= strip_header(hs0, name@));
        }
        kept.push((name, value));
        self.headers = kept;
    }
}

} // verus!
