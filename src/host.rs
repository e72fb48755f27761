use vstd::prelude::*;

verus! {

/// The canonical text of the host that a host token names, or `None` where the
/// token names no host.
pub uninterp spec fn canonical_host(s: Seq<char>) -> Option<Seq<char>>;

/// Relies on `url::Host::parse`, which normalizes a host token (IDNA for domains,
/// every numeric form of an IPv4 address, bracketed IPv6) or fails; and on the
/// `Display` of `url::Host`, which writes the normalized host.
#[verifier::external_body]
fn normalize(s: &str) -> (r: Option<String>)
    ensures
        r matches Some(h) ==> canonical_host(s@) == Some(h@),
        r is None ==> canonical_host(s@) is None,
{
    url::Host::parse(s).ok().map(|h| h.to_string())
}

/// A normalized host: a domain in its ASCII form, an IPv4 address in dotted
/// form or an IPv6 address in brackets. Two hosts are the same exactly when
/// their texts are equal.
pub struct Host {
    name: String,
}

impl View for Host {
    type V = Seq<char>;

    closed spec fn view(&self) -> Seq<char> {
        self.name@
    }
}

impl Clone for Host {
    fn clone(&self) -> (r: Host)
        ensures
            r@ == self@,
    {
        Host { name: self.name.clone() }
    }
}

impl Host {
    /// Normalizes a host token; `None` where it names no host.
    pub fn parse(s: &str) -> (r: Option<Host>)
        ensures
            r matches Some(h) ==> canonical_host(s@) == Some(h@),
            r is None ==> canonical_host(s@) is None,
    {
        match normalize(s) {
            Some(name) => Some(Host { name }),
            None => None,
        }
    }

    /// The normalized text of the host.
    pub fn as_str(&self) -> (r: &str)
        ensures
            r@ == self@,
    {
        self.name.as_str()
    }

    /// Whether two hosts are the same.
    pub fn same(&self, other: &Host) -> (r: bool)
        ensures
            r == (self@ == other@),
    {
        self.name == other.name
    }
}

} // verus!
