//! The node's persisted configuration: a JSON document whose recognized
//! top-level fields are read and replaced while every unknown field is
//! preserved untouched.
//!
//! The document itself is JSON and stays opaque; what this module owns
//! is the reading logic: which field says what, and the parsing of the
//! `"A.B.C.D:port"` socket address that the suggested ports come from.

use vstd::prelude::*;

verus! {

/// A JSON document. Declared so that it can stand in fields and
/// signatures; nothing of its inside is visible here.
#[verifier::external_type_specification]
#[verifier::external_body]
pub struct ExValue(serde_json::Value);

/// What a JSON document holds under a top-level key: the member of the
/// object under that key, or nothing when the key is absent or the
/// document is not an object.
pub uninterp spec fn json_field(v: serde_json::Value, key: Seq<char>) -> Option<serde_json::Value>;

/// Whether a JSON document is an object.
pub uninterp spec fn json_is_object(v: serde_json::Value) -> bool;

/// The bytes of a JSON string value, or nothing when the value is not a
/// string.
pub uninterp spec fn json_string_bytes_of(v: serde_json::Value) -> Option<Seq<u8>>;

/// The value of a JSON number as an unsigned 64-bit integer, or nothing
/// when the value is not a number representable that way.
pub uninterp spec fn json_u64_of(v: serde_json::Value) -> Option<u64>;

/// Relies on serde_json::Value::get: the member under a key of an
/// object, or nothing for an absent key or a non-object.
#[verifier::external_body]
fn json_get<'a>(v: &'a serde_json::Value, key: &str) -> (r: Option<&'a serde_json::Value>)
    ensures
        match r {
            Some(f) => json_field(*v, key@) == Some(*f),
            None => json_field(*v, key@) is None,
        },
{
    v.get(key)
}

/// Relies on serde_json::Value::as_str: the bytes of a string value,
/// or nothing for a non-string.
#[verifier::external_body]
fn json_as_str_bytes(v: &serde_json::Value) -> (r: Option<Vec<u8>>)
    ensures
        match r {
            Some(b) => json_string_bytes_of(*v) == Some(b@),
            None => json_string_bytes_of(*v) is None,
        },
{
    match v.as_str() {
        Some(s) => Some(s.as_bytes().to_vec()),
        None => None,
    }
}

/// Relies on serde_json::Value::as_u64: the number as a u64, or
/// nothing for a non-number or one out of range.
#[verifier::external_body]
fn json_as_u64(v: &serde_json::Value) -> (r: Option<u64>)
    ensures
        r == json_u64_of(*v),
{
    v.as_u64()
}

/// Relies on serde_json::Value::clone: the copy equals the original.
#[verifier::external_body]
fn json_clone(v: &serde_json::Value) -> (r: serde_json::Value)
    ensures
        r == *v,
{
    v.clone()
}

/// Relies on serde_json::Value::as_object_mut and Map::insert: replaces
/// the member under the key of an object, leaving every other member as
/// it was; a non-object is left untouched.
#[verifier::external_body]
fn json_insert(v: &mut serde_json::Value, key: &str, value: serde_json::Value) -> (r: bool)
    ensures
        r == json_is_object(*old(v)),
        !r ==> *final(v) == *old(v),
        r ==> json_is_object(*final(v)),
        r ==> json_field(*final(v), key@) == Some(value),
        r ==> forall|k2: Seq<char>|
            k2 != key@ ==> #[trigger] json_field(*final(v), k2) == json_field(*old(v), k2),
{
    match v.as_object_mut() {
        Some(map) => {
            map.insert(key.to_owned(), value);
            true
        },
        None => false,
    }
}

/// Whether a byte is an ASCII decimal digit.
pub open spec fn spec_is_digit(b: u8) -> bool {
    48 <= b <= 57
}

/// Whether every byte is an ASCII decimal digit.
pub open spec fn spec_all_digits(s: Seq<u8>) -> bool {
    forall|i: int| 0 <= i < s.len() ==> spec_is_digit(#[trigger] s[i])
}

/// The decimal value of a run of digits.
pub open spec fn spec_digits_value(s: Seq<u8>) -> nat
    decreases s.len(),
{
    if s.len() == 0 {
        0
    } else {
        (spec_digits_value(s.drop_last()) * 10 + (s.last() - 48)) as nat
    }
}

/// An IPv4 address octet: one to three digits, no leading zero, at most
/// 255.
pub open spec fn spec_parse_octet(s: Seq<u8>) -> Option<u8> {
    if 1 <= s.len() <= 3 && spec_all_digits(s) && (s.len() > 1 ==> s[0] != 48)
        && spec_digits_value(s) <= 255 {
        Some(spec_digits_value(s) as u8)
    } else {
        None
    }
}

/// A port: a run of digits (leading zeros allowed) valued at most
/// 65535.
pub open spec fn spec_parse_port(s: Seq<u8>) -> Option<u16> {
    if s.len() >= 1 && spec_all_digits(s) && spec_digits_value(s) <= 65535 {
        Some(spec_digits_value(s) as u16)
    } else {
        None
    }
}

/// The first position of `needle`, if any.
pub open spec fn spec_find(s: Seq<u8>, needle: u8) -> Option<int>
    decreases s.len(),
{
    if s.len() == 0 {
        None
    } else if s[0] == needle {
        Some(0)
    } else {
        match spec_find(s.skip(1), needle) {
            Some(i) => Some(i + 1),
            None => None,
        }
    }
}

/// What the first position of `needle` means: it carries the needle,
/// nothing before it does, and when there is none, no position does.
pub proof fn lemma_spec_find(s: Seq<u8>, needle: u8)
    ensures
        match spec_find(s, needle) {
            Some(i) => 0 <= i < s.len() && s[i] == needle && forall|j: int|
                0 <= j < i ==> s[j] != needle,
            None => forall|j: int| 0 <= j < s.len() ==> s[j] != needle,
        },
    decreases s.len(),
{
    if s.len() > 0 && s[0] != needle {
        lemma_spec_find(s.skip(1), needle);
        match spec_find(s.skip(1), needle) {
            Some(i0) => {
                assert(s[i0 + 1] == s.skip(1)[i0]);
                assert forall|j: int| 0 <= j < i0 + 1 implies s[j] != needle by {
                    if j > 0 {
                        assert(s.skip(1)[j - 1] == s[j]);
                    }
                }
            },
            None => {
                assert forall|j: int| 0 <= j < s.len() implies s[j] != needle by {
                    if j > 0 {
                        assert(s.skip(1)[j - 1] == s[j]);
                    }
                }
            },
        }
    }
}

/// An IPv4 socket address, as plain values.
#[derive(Clone, Copy, Debug, PartialEq, Eq, Structural)]
pub struct SocketAddrParts {
    pub a: u8,
    pub b: u8,
    pub c: u8,
    pub d: u8,
    pub port: u16,
}

/// The parse of an `"A.B.C.D:port"` socket address: four octets
/// separated by dots, then a colon and the port.
pub open spec fn spec_parse_socket_addr(s: Seq<u8>) -> Option<SocketAddrParts> {
    match spec_find(s, 46u8) {
        None => None,
        Some(p1) => match spec_parse_octet(s.take(p1)) {
            None => None,
            Some(a) => {
                let r1 = s.skip(p1 + 1);
                match spec_find(r1, 46u8) {
                    None => None,
                    Some(p2) => match spec_parse_octet(r1.take(p2)) {
                        None => None,
                        Some(b) => {
                            let r2 = r1.skip(p2 + 1);
                            match spec_find(r2, 46u8) {
                                None => None,
                                Some(p3) => match spec_parse_octet(r2.take(p3)) {
                                    None => None,
                                    Some(c) => {
                                        let r3 = r2.skip(p3 + 1);
                                        match spec_find(r3, 58u8) {
                                            None => None,
                                            Some(pc) => match spec_parse_octet(r3.take(pc)) {
                                                None => None,
                                                Some(d) => match spec_parse_port(
                                                    r3.skip(pc + 1),
                                                ) {
                                                    None => None,
                                                    Some(port) => Some(
                                                        SocketAddrParts { a, b, c, d, port },
                                                    ),
                                                },
                                            },
                                        }
                                    },
                                },
                            }
                        },
                    },
                }
            },
        },
    }
}

/// The first position of `needle` in `s` at or after `from`.
fn find_byte(s: &[u8], from: usize, needle: u8) -> (r: Option<usize>)
    requires
        from <= s@.len(),
    ensures
        match r {
            Some(i) => {
                &&& from <= i < s@.len()
                &&& s@[i as int] == needle
                &&& forall|j: int| from <= j < i ==> s@[j] != needle
                &&& spec_find(s@.skip(from as int), needle) == Some(i - from)
            },
            None => {
                &&& forall|j: int| from <= j < s@.len() ==> s@[j] != needle
                &&& spec_find(s@.skip(from as int), needle) is None
            },
        },
{
    let n = s.len();
    let mut i = from;
    while i < n
        invariant
            from <= i <= n,
            n == s@.len(),
            forall|j: int| from <= j < i ==> s@[j] != needle,
        decreases n - i,
    {
        if s[i] == needle {
            proof {
                lemma_spec_find(s@.skip(from as int), needle);
                let sub = s@.skip(from as int);
                assert forall|j: int| 0 <= j < sub.len() implies sub[j] == s@[from + j] by {}
                match spec_find(sub, needle) {
                    Some(k) => {
                        assert(sub[i - from] == needle);
                        if k < i - from {
                            assert(s@[from + k] == needle);
                        }
                        if k > i - from {
                            assert(sub[i - from] != needle);
                        }
                    },
                    None => {
                        assert(sub[i - from] == needle);
                    },
                }
            }
            return Some(i);
        }
        i = i + 1;
    }
    proof {
        lemma_spec_find(s@.skip(from as int), needle);
        let sub = s@.skip(from as int);
        assert forall|j: int| 0 <= j < sub.len() implies sub[j] == s@[from + j] by {}
        match spec_find(sub, needle) {
            Some(k) => {
                assert(s@[from + k] == needle);
            },
            None => {},
        }
    }
    None
}

/// Parses the digit run `s[lo..hi]` as an address octet.
fn parse_octet_at(s: &[u8], lo: usize, hi: usize) -> (r: Option<u8>)
    requires
        lo <= hi <= s@.len(),
    ensures
        r == spec_parse_octet(s@.subrange(lo as int, hi as int)),
{
    let ghost seg = s@.subrange(lo as int, hi as int);
    let len = hi - lo;
    if len < 1 || len > 3 {
        return None;
    }
    if len > 1 && s[lo] == 48 {
        return None;
    }
    let mut value: u32 = 0;
    let mut k: usize = 0;
    while k < len
        invariant
            lo <= hi <= s@.len(),
            len == hi - lo,
            len <= 3,
            k <= len,
            seg == s@.subrange(lo as int, hi as int),
            spec_all_digits(seg.take(k as int)),
            value == spec_digits_value(seg.take(k as int)),
            k == 0 ==> value == 0,
            k <= 1 ==> value <= 9,
            k <= 2 ==> value <= 99,
            value <= 999,
        decreases len - k,
    {
        let b = s[lo + k];
        if b < 48 || b > 57 {
            proof {
                assert(seg[k as int] == s@[lo + k]);
            }
            return None;
        }
        proof {
            assert(seg.take(k as int + 1).drop_last() =~= seg.take(k as int));
            assert(seg.take(k as int + 1).last() == s@[lo + k]);
        }
        value = value * 10 + ((b - 48) as u32);
        k = k + 1;
    }
    proof {
        assert(seg.take(len as int) =~= seg);
    }
    if value <= 255 {
        Some(value as u8)
    } else {
        None
    }
}

/// How the value of a digit run relates to the value of its prefixes:
/// it never shrinks as digits are appended.
proof fn lemma_digits_value_prefix(s: Seq<u8>, k: int)
    requires
        0 <= k <= s.len(),
        spec_all_digits(s),
    ensures
        spec_digits_value(s) >= spec_digits_value(s.take(k)),
    decreases s.len() - k,
{
    if k < s.len() {
        lemma_digits_value_prefix(s, k + 1);
        assert(s.take(k + 1).drop_last() =~= s.take(k));
        assert(spec_digits_value(s.take(k + 1)) >= spec_digits_value(s.take(k)));
    } else {
        assert(s.take(k) =~= s);
    }
}

/// Parses the digit run `s[lo..]` as a port.
fn parse_port_at(s: &[u8], lo: usize) -> (r: Option<u16>)
    requires
        lo <= s@.len(),
    ensures
        r == spec_parse_port(s@.subrange(lo as int, s@.len() as int)),
{
    let ghost seg = s@.subrange(lo as int, s@.len() as int);
    let n = s.len();
    let len = n - lo;
    if len < 1 {
        return None;
    }
    let mut value: u32 = 0;
    let mut k: usize = 0;
    while k < len
        invariant
            lo <= n,
            n == s@.len(),
            len == n - lo,
            k <= len,
            seg == s@.subrange(lo as int, n as int),
            spec_all_digits(seg.take(k as int)),
            value == spec_digits_value(seg.take(k as int)),
            value <= 65535,
        decreases len - k,
    {
        let b = s[lo + k];
        if b < 48 || b > 57 {
            proof {
                assert(seg[k as int] == s@[lo + k]);
            }
            return None;
        }
        proof {
            assert(seg.take(k as int + 1).drop_last() =~= seg.take(k as int));
            assert(seg.take(k as int + 1).last() == s@[lo + k]);
        }
        value = value * 10 + ((b - 48) as u32);
        if value > 65535 {
            proof {
                if spec_all_digits(seg) {
                    lemma_digits_value_prefix(seg, k as int + 1);
                }
            }
            return None;
        }
        k = k + 1;
    }
    proof {
        assert(seg.take(len as int) =~= seg);
    }
    Some(value as u16)
}

/// Parses an `"A.B.C.D:port"` IPv4 socket address from bytes: four
/// octets without leading zeros, a colon, and the port.
#[verifier::rlimit(60)]
pub fn parse_socket_addr_v4(s: &[u8]) -> (r: Option<SocketAddrParts>)
    ensures
        r == spec_parse_socket_addr(s@),
{
    let n = s.len();
    let p1 = match find_byte(s, 0, 46) {
        Some(p1) => p1,
        None => {
            proof {
                assert(s@.skip(0) =~= s@);
            }
            return None;
        },
    };
    proof {
        assert(s@.skip(0) =~= s@);
        assert(s@.take(p1 as int) =~= s@.subrange(0, p1 as int));
    }
    let a = match parse_octet_at(s, 0, p1) {
        Some(a) => a,
        None => {
            return None;
        },
    };
    let ghost r1 = s@.skip(p1 + 1);
    let p2 = match find_byte(s, p1 + 1, 46) {
        Some(p2) => p2,
        None => {
            return None;
        },
    };
    proof {
        assert(r1.take(p2 - p1 - 1) =~= s@.subrange(p1 as int + 1, p2 as int));
    }
    let b = match parse_octet_at(s, p1 + 1, p2) {
        Some(b) => b,
        None => {
            return None;
        },
    };
    let ghost r2 = r1.skip(p2 - p1 as int);
    proof {
        assert(r2 =~= s@.skip(p2 + 1));
    }
    let p3 = match find_byte(s, p2 + 1, 46) {
        Some(p3) => p3,
        None => {
            proof {
                assert(s@.skip(p2 + 1) =~= r2);
            }
            return None;
        },
    };
    proof {
        assert(r2.take(p3 - p2 - 1) =~= s@.subrange(p2 as int + 1, p3 as int));
        assert(spec_find(r2, 46u8) == Some(p3 - p2 - 1));
    }
    let c = match parse_octet_at(s, p2 + 1, p3) {
        Some(c) => c,
        None => {
            return None;
        },
    };
    let ghost r3 = r2.skip(p3 - p2 as int);
    proof {
        assert(r3 =~= s@.skip(p3 + 1));
    }
    let pc = match find_byte(s, p3 + 1, 58) {
        Some(pc) => pc,
        None => {
            proof {
                assert(s@.skip(p3 + 1) =~= r3);
            }
            return None;
        },
    };
    proof {
        assert(r3.take(pc - p3 - 1) =~= s@.subrange(p3 as int + 1, pc as int));
        assert(spec_find(r3, 58u8) == Some(pc - p3 - 1));
    }
    let d = match parse_octet_at(s, p3 + 1, pc) {
        Some(d) => d,
        None => {
            return None;
        },
    };
    proof {
        assert(r3.skip(pc - p3 as int) =~= s@.subrange(pc as int + 1, n as int));
    }
    let port = match parse_port_at(s, pc + 1) {
        Some(port) => port,
        None => {
            return None;
        },
    };
    Some(SocketAddrParts { a, b, c, d, port })
}

/// A duration as plain values: whole seconds and the nanosecond
/// remainder.
#[derive(Clone, Copy, Debug, PartialEq, Eq, Structural)]
pub struct DurationValue {
    pub secs: u64,
    pub nanos: u32,
}

/// The read and write timeouts of the control server.
#[derive(Clone, Copy, Debug, PartialEq, Eq, Structural)]
pub struct NodeConfigControlServerTimeouts {
    pub read: DurationValue,
    pub write: DurationValue,
}

/// Why the node config was rejected.
#[derive(Clone, Copy, Debug, PartialEq, Eq, Structural)]
pub enum NodeConfigError {
    /// The document is not a JSON object.
    InvalidConfig,
}

impl NodeConfigError {
    /// A short description of the rejection.
    pub fn describe(&self) -> (r: &'static str)
        ensures
            r@ == "invalid node config"@,
    {
        "invalid node config"
    }
}

/// The validator node's configuration: a JSON document read and edited
/// field by field, with unknown fields preserved.
pub struct NodeConfig {
    json: serde_json::Value,
}

impl NodeConfig {
    /// The underlying document, for specification purposes.
    pub closed spec fn spec_json(self) -> serde_json::Value {
        self.json
    }

    /// Wraps a loaded JSON document.
    pub fn from_value(json: serde_json::Value) -> (r: NodeConfig)
        ensures
            r.spec_json() == json,
    {
        NodeConfig { json }
    }

    /// The underlying document, to be stored by the caller.
    pub fn as_value(&self) -> (r: &serde_json::Value)
        ensures
            *r == self.spec_json(),
    {
        &self.json
    }

    /// The port suggested by the document's `ip_address` field: the
    /// port of the socket address it holds, when the field is a string
    /// in `"A.B.C.D:port"` form.
    pub fn get_suggested_adnl_port(&self) -> (r: Option<u16>)
        ensures
            r == (match json_field(self.spec_json(), "ip_address"@) {
                Some(f) => match json_string_bytes_of(f) {
                    Some(bytes) => match spec_parse_socket_addr(bytes) {
                        Some(p) => Some(p.port),
                        None => None::<u16>,
                    },
                    None => None::<u16>,
                },
                None => None::<u16>,
            }),
    {
        let field = match json_get(&self.json, "ip_address") {
            Some(f) => f,
            None => {
                return None;
            },
        };
        let bytes = match json_as_str_bytes(field) {
            Some(b) => b,
            None => {
                return None;
            },
        };
        match parse_socket_addr_v4(bytes.as_slice()) {
            Some(p) => Some(p.port),
            None => None,
        }
    }

    /// The port suggested by the document's `control_server_port`
    /// field, when it is a number that fits a port.
    pub fn get_suggested_control_port(&self) -> (r: Option<u16>)
        ensures
            r == (match json_field(self.spec_json(), "control_server_port"@) {
                Some(f) => match json_u64_of(f) {
                    Some(v) => if v <= u16::MAX {
                        Some(v as u16)
                    } else {
                        None::<u16>
                    },
                    None => None::<u16>,
                },
                None => None::<u16>,
            }),
    {
        let field = match json_get(&self.json, "control_server_port") {
            Some(f) => f,
            None => {
                return None;
            },
        };
        match json_as_u64(field) {
            Some(v) => if v <= 65535 {
                Some(v as u16)
            } else {
                None
            },
            None => None,
        }
    }

    /// The document's `adnl_node` section, when there is one.
    pub fn get_adnl_node(&self) -> (r: Option<serde_json::Value>)
        ensures
            r == json_field(self.spec_json(), "adnl_node"@),
    {
        match json_get(&self.json, "adnl_node") {
            Some(f) => Some(json_clone(f)),
            None => None,
        }
    }

    /// Replaces the document's `adnl_node` section.
    pub fn set_adnl_node(&mut self, node: serde_json::Value) -> (r: Result<(), NodeConfigError>)
        ensures
            match r {
                Ok(()) => {
                    &&& json_field(final(self).spec_json(), "adnl_node"@) == Some(node)
                    &&& forall|k2: Seq<char>|
                        k2 != "adnl_node"@ ==> #[trigger] json_field(final(self).spec_json(), k2)
                            == json_field(old(self).spec_json(), k2)
                },
                Err(_) => {
                    &&& !json_is_object(old(self).spec_json())
                    &&& *final(self) == *old(self)
                },
            },
    {
        self.set_field("adnl_node", node)
    }

    /// The document's `control_server` section, when there is one.
    pub fn get_control_server(&self) -> (r: Option<serde_json::Value>)
        ensures
            r == json_field(self.spec_json(), "control_server"@),
    {
        match json_get(&self.json, "control_server") {
            Some(f) => Some(json_clone(f)),
            None => None,
        }
    }

    /// Replaces the document's `control_server` section.
    pub fn set_control_server(&mut self, node: serde_json::Value) -> (r: Result<
        (),
        NodeConfigError,
    >)
        ensures
            match r {
                Ok(()) => {
                    &&& json_field(final(self).spec_json(), "control_server"@) == Some(node)
                    &&& forall|k2: Seq<char>|
                        k2 != "control_server"@ ==> #[trigger] json_field(
                            final(self).spec_json(),
                            k2,
                        ) == json_field(old(self).spec_json(), k2)
                },
                Err(_) => {
                    &&& !json_is_object(old(self).spec_json())
                    &&& *final(self) == *old(self)
                },
            },
    {
        self.set_field("control_server", node)
    }

    /// Replaces one top-level field, leaving every other field — known
    /// or unknown — exactly as it was. A document that is not an object
    /// is rejected untouched.
    pub fn set_field(&mut self, key: &str, value: serde_json::Value) -> (r: Result<
        (),
        NodeConfigError,
    >)
        ensures
            match r {
                Ok(()) => {
                    &&& json_is_object(old(self).spec_json())
                    &&& json_is_object(final(self).spec_json())
                    &&& json_field(final(self).spec_json(), key@) == Some(value)
                    &&& forall|k2: Seq<char>|
                        k2 != key@ ==> #[trigger] json_field(final(self).spec_json(), k2)
                            == json_field(old(self).spec_json(), k2)
                },
                Err(_) => {
                    &&& !json_is_object(old(self).spec_json())
                    &&& *final(self) == *old(self)
                },
            },
    {
        if json_insert(&mut self.json, key, value) {
            Ok(())
        } else {
            Err(NodeConfigError::InvalidConfig)
        }
    }
}

} // verus!
