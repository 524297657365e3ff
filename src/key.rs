use vstd::prelude::*;

verus! {

/// Opaque identity of a resolve result: the address of the result list.
/// Equality is identity.
pub type Handle = usize;

/// The optional hint fields of a resolve call.
#[derive(Clone, Copy)]
pub struct Hints {
    pub flags: i32,
    pub family: i32,
    pub socktype: i32,
    pub protocol: i32,
}

/// Relies on libc::AF_UNSPEC: the "any address family" value, 0 on every
/// target that libc defines it for.
#[verifier::external_body]
fn af_unspec() -> (r: i32)
    ensures
        r == 0,
{
    libc::AF_UNSPEC
}

/// Relies on libc::AI_V4MAPPED; its value depends on the target.
#[verifier::external_body]
fn ai_v4mapped() -> (r: i32) {
    libc::AI_V4MAPPED
}

/// Relies on libc::AI_ADDRCONFIG; its value depends on the target.
#[verifier::external_body]
fn ai_addrconfig() -> (r: i32) {
    libc::AI_ADDRCONFIG
}

impl Hints {
    /// The hints that stand for an absent hint structure: any family,
    /// `AI_V4MAPPED | AI_ADDRCONFIG`, socket type 0 and protocol 0.
    pub fn defaults() -> (h: Hints)
        ensures
            h.family == 0,
            h.socktype == 0,
            h.protocol == 0,
    {
        let v4mapped = ai_v4mapped();
        let addrconfig = ai_addrconfig();
        Hints { flags: v4mapped | addrconfig, family: af_unspec(), socktype: 0, protocol: 0 }
    }
}

/// Mathematical model of a canonical request key.
pub ghost struct KeyModel {
    pub hostname: Seq<u8>,
    pub service: Seq<u8>,
    pub flags: i32,
    pub family: i32,
    pub socktype: i32,
    pub protocol: i32,
}

/// The normalised parameters of a resolve call. Two requests are equivalent
/// exactly when all six fields are equal.
pub struct CanonicalRequestKey {
    pub hostname: Vec<u8>,
    pub service: Vec<u8>,
    pub flags: i32,
    pub family: i32,
    pub socktype: i32,
    pub protocol: i32,
}

impl View for CanonicalRequestKey {
    type V = KeyModel;

    open spec fn view(&self) -> KeyModel {
        KeyModel {
            hostname: self.hostname@,
            service: self.service@,
            flags: self.flags,
            family: self.family,
            socktype: self.socktype,
            protocol: self.protocol,
        }
    }
}

/// The key that a resolve call with these parameters stands for: an absent
/// hostname or service is the empty string, and absent hints are `defaults`.
pub open spec fn canonical(
    hostname: Option<Seq<u8>>,
    service: Option<Seq<u8>>,
    hints: Option<Hints>,
    defaults: Hints,
) -> KeyModel {
    let h = match hints {
        Some(h) => h,
        None => defaults,
    };
    KeyModel {
        hostname: match hostname {
            Some(s) => s,
            None => Seq::empty(),
        },
        service: match service {
            Some(s) => s,
            None => Seq::empty(),
        },
        flags: h.flags,
        family: h.family,
        socktype: h.socktype,
        protocol: h.protocol,
    }
}

fn copy_bytes(s: &[u8]) -> (r: Vec<u8>)
    ensures
        r@ == s@,
{
    let mut r: Vec<u8> = Vec::new();
    let mut i: usize = 0;
    while i < s.len()
        invariant
            i <= s@.len(),
            r@ == s@.subrange(0, i as int),
        decreases s@.len() - i,
    {
        r.push(s[i]);
        i = i + 1;
    }
    assert(r@ =~= s@);
    r
}

fn bytes_or_empty(s: Option<&[u8]>) -> (r: Vec<u8>)
    ensures
        r@ == match s {
            Some(b) => b@,
            None => Seq::<u8>::empty(),
        },
{
    match s {
        Some(b) => copy_bytes(b),
        None => Vec::new(),
    }
}

/// Whether two byte strings are equal.
pub fn bytes_equal(a: &[u8], b: &[u8]) -> (r: bool)
    ensures
        r == (a@ == b@),
{
    if a.len() != b.len() {
        return false;
    }
    let mut i: usize = 0;
    while i < a.len()
        invariant
            a@.len() == b@.len(),
            i <= a@.len(),
            forall|j: int| 0 <= j < i ==> a@[j] == b@[j],
        decreases a@.len() - i,
    {
        if a[i] != b[i] {
            return false;
        }
        i = i + 1;
    }
    assert(a@ =~= b@);
    true
}

impl CanonicalRequestKey {
    /// Canonicalises the parameters of a resolve call. Never fails.
    pub fn new(
        hostname: Option<&[u8]>,
        service: Option<&[u8]>,
        hints: Option<Hints>,
        defaults: Hints,
    ) -> (k: CanonicalRequestKey)
        ensures
            k@ == canonical(
                match hostname {
                    Some(s) => Some(s@),
                    None => None,
                },
                match service {
                    Some(s) => Some(s@),
                    None => None,
                },
                hints,
                defaults,
            ),
    {
        let h = match hints {
            Some(h) => h,
            None => defaults,
        };
        CanonicalRequestKey {
            hostname: bytes_or_empty(hostname),
            service: bytes_or_empty(service),
            flags: h.flags,
            family: h.family,
            socktype: h.socktype,
            protocol: h.protocol,
        }
    }

    /// Whether two keys stand for equivalent requests.
    pub fn equivalent(&self, other: &CanonicalRequestKey) -> (r: bool)
        ensures
            r == (self@ == other@),
    {
        self.flags == other.flags && self.family == other.family && self.socktype
            == other.socktype && self.protocol == other.protocol && bytes_equal(
            self.hostname.as_slice(),
            other.hostname.as_slice(),
        ) && bytes_equal(self.service.as_slice(), other.service.as_slice())
    }

    /// A copy of the key.
    pub fn duplicate(&self) -> (r: CanonicalRequestKey)
        ensures
            r@ == self@,
    {
        CanonicalRequestKey {
            hostname: copy_bytes(self.hostname.as_slice()),
            service: copy_bytes(self.service.as_slice()),
            flags: self.flags,
            family: self.family,
            socktype: self.socktype,
            protocol: self.protocol,
        }
    }
}

} // verus!
