//! One-time enrollment bundles: the secret material a client needs to
//! install one node. A bundle is validated and its credential normalized; it
//! is never kept as a profile. Its JSON form is read and written outside the
//! library.
use vstd::prelude::*;

use crate::net::{IpAddress, SocketAddress};
use crate::operator::{decimal_chars, hex_char, push_decimal, push_digit};
use crate::profile::{
    identifier_ok, profile_name_ok, server_name_valid, valid_server_name, validate_identifier,
    ProfileError, ProfileErrorKind,
};
use crate::settings::{hex_pair, is_hex_byte, hex_byte_value, pair_is_text, pairs_decode_before};
use crate::text::{ascii_lowercase, to_ascii_lowercase, trim};

verus! {

pub const ENROLLMENT_VERSION: u16 = 1;

pub const MAX_ENROLLMENT_BYTES: usize = 16384;

/// Octets of an enrollment credential.
pub const CREDENTIAL_BYTES: usize = 32;

/// Largest custom CA certificate, in octets.
pub const MAX_CERTIFICATE_BYTES: usize = 12288;

/// The node an enrollment installs.
#[derive(Clone, Debug, PartialEq, Eq)]
pub struct EnrollmentNode {
    pub id: String,
    pub name: String,
    pub relay_address: SocketAddress,
    pub server_name: String,
    /// What `server_name` reads as when taken as an IP address.
    pub server_address: Option<IpAddress>,
}

/// How the node's certificate is trusted.
#[derive(Clone, Debug, PartialEq, Eq)]
pub enum EnrollmentTrust {
    System,
    CustomCa { certificate_pem: String },
}

/// A one-time enrollment bundle.
#[derive(Clone, Debug, PartialEq, Eq)]
pub struct EnrollmentBundle {
    pub kind: String,
    pub version: u16,
    pub node: EnrollmentNode,
    pub principal_id: u64,
    pub credential: String,
    pub trust: EnrollmentTrust,
}

/// `velum-enrollment`.
pub open spec fn enrollment_kind() -> Seq<char> {
    seq!['v', 'e', 'l', 'u', 'm', '-', 'e', 'n', 'r', 'o', 'l', 'l', 'm', 'e', 'n', 't']
}

/// `-----BEGIN CERTIFICATE-----`.
pub open spec fn certificate_marker() -> Seq<char> {
    seq![
        '-', '-', '-', '-', '-', 'B', 'E', 'G', 'I', 'N', ' ', 'C', 'E', 'R', 'T', 'I', 'F', 'I',
        'C', 'A', 'T', 'E', '-', '-', '-', '-', '-',
    ]
}

/// Whether `needle` occurs in `text`.
pub open spec fn contains_text(text: Seq<char>, needle: Seq<char>) -> bool {
    exists|i: int| 0 <= i <= text.len() - needle.len() && #[trigger] text.subrange(i, i + needle.len()) == needle
}

/// Lower-case hexadecimal text of `bytes`, two digits each.
pub open spec fn hex_text(bytes: Seq<u8>) -> Seq<char> {
    Seq::new(
        2 * bytes.len(),
        |k: int| hex_char(if k % 2 == 0 { bytes[k / 2] / 16 } else { bytes[k / 2] % 16 } as int),
    )
}

/// The octets that hexadecimal text encodes: a non-empty, even number of
/// characters, each pair read in base 16.
pub open spec fn hex_octets(text: Seq<u8>) -> Option<Seq<u8>> {
    if text.len() == 0 || text.len() % 2 != 0 || !pairs_decode_before(text, (text.len() / 2) as int) {
        None
    } else {
        Some(Seq::new(text.len() / 2, |j: int| hex_pair(text[2 * j], text[2 * j + 1])->Some_0))
    }
}

/// Whether every pair of octets read before the first one that fails is
/// text on its own, as reading each pair requires.
pub open spec fn pairs_are_text(text: Seq<u8>) -> bool {
    forall|k: int|
        0 <= k < text.len() / 2 && pairs_decode_before(text, k) ==> pair_is_text(
            #[trigger] text[2 * k],
            text[2 * k + 1],
        )
}

/// A custom authority's certificate: 1 to 12288 octets holding a
/// certificate marker.
pub open spec fn trust_ok(trust: EnrollmentTrust) -> bool {
    match trust {
        EnrollmentTrust::System => true,
        EnrollmentTrust::CustomCa { certificate_pem } => {
            &&& certificate_pem@.len() > 0
            &&& vstd::utf8::encode_utf8(certificate_pem@).len() <= MAX_CERTIFICATE_BYTES
            &&& contains_text(certificate_pem@, certificate_marker())
        },
    }
}

/// Why a bundle is refused, if it is: its kind, its version, then
/// everything else.
pub open spec fn enrollment_refusal(b: EnrollmentBundle) -> Option<ProfileErrorKind> {
    if b.kind@ != enrollment_kind() {
        Some(ProfileErrorKind::Validation)
    } else if b.version != ENROLLMENT_VERSION {
        Some(ProfileErrorKind::UnsupportedVersion)
    } else if !(identifier_ok(b.node.id@) && profile_name_ok(b.node.name@)
        && !b.node.relay_address.ip.spec_is_unspecified() && server_name_valid(
        b.node.server_name@,
        b.node.server_address,
    ) && (hex_octets(vstd::utf8::encode_utf8(b.credential@)) matches Some(c) && c.len() == CREDENTIAL_BYTES)
        && trust_ok(b.trust)) {
        Some(ProfileErrorKind::Validation)
    } else {
        None
    }
}

fn contains_marker(text: &str) -> (found: bool)
    ensures
        found == contains_text(text@, certificate_marker()),
{
    proof {
        reveal_strlit("-----BEGIN CERTIFICATE-----");
        assert("-----BEGIN CERTIFICATE-----"@ =~= certificate_marker());
    }
    let needle = "-----BEGIN CERTIFICATE-----";
    let n = text.unicode_len();
    let m = needle.unicode_len();
    if n < m {
        proof {
            assert forall|i: int| 0 <= i <= text@.len() - m implies #[trigger] text@.subrange(i, i + m)
                != certificate_marker() by {}
        }
        return false;
    }
    let mut i: usize = 0;
    while i <= n - m
        invariant
            m <= n,
            n == text@.len(),
            m == certificate_marker().len(),
            needle@ == certificate_marker(),
            forall|k: int| 0 <= k < i ==> #[trigger] text@.subrange(k, k + m) != certificate_marker(),
        decreases n - m + 1 - i,
    {
        let mut j: usize = 0;
        while j < m && text.get_char(i + j) == needle.get_char(j)
            invariant
                j <= m,
                i + m <= n,
                n == text@.len(),
                m == needle@.len(),
                forall|q: int| 0 <= q < j ==> text@[i + q] == needle@[q],
            decreases m - j,
        {
            j = j + 1;
        }
        if j == m {
            assert(text@.subrange(i as int, i + m) =~= certificate_marker());
            return true;
        }
        assert(text@.subrange(i as int, i + m)[j as int] != certificate_marker()[j as int]);
        i = i + 1;
    }
    false
}

/// Encodes octets as lower-case hexadecimal text.
pub fn encode_hex(bytes: &[u8]) -> (text: String)
    ensures
        text@ == hex_text(bytes@),
{
    let mut text = String::new();
    let mut i: usize = 0;
    while i < bytes.len()
        invariant
            i <= bytes@.len(),
            text@ == hex_text(bytes@.subrange(0, i as int)),
        decreases bytes@.len() - i,
    {
        let ghost before = text@;
        push_digit(&mut text, (bytes[i] / 16) as u64);
        push_digit(&mut text, (bytes[i] % 16) as u64);
        i = i + 1;
        assert(text@ =~= hex_text(bytes@.subrange(0, i as int))) by {
            let prefix = bytes@.subrange(0, i as int);
            assert forall|k: int| 0 <= k < before.len() implies before[k] == hex_text(prefix)[k] by {
                assert(prefix[k / 2] == bytes@.subrange(0, i - 1)[k / 2]);
            }
        }
    }
    assert(bytes@.subrange(0, i as int) =~= bytes@);
    text
}

/// Decodes hexadecimal text.
#[verifier::loop_isolation(false)]
pub fn decode_hex(value: &str) -> (octets: Result<Vec<u8>, ProfileError>)
    requires
        pairs_are_text(vstd::utf8::encode_utf8(value@)),
    ensures
        match hex_octets(vstd::utf8::encode_utf8(value@)) {
            Some(o) => octets matches Ok(v) && v@ == o,
            None => octets matches Err(e) && e.spec_kind() == ProfileErrorKind::Validation,
        },
{
    let bytes = value.as_bytes();
    let n = bytes.len();
    if n == 0 || n % 2 != 0 {
        return Err(ProfileError::new(ProfileErrorKind::Validation, "enrollment credential must be hexadecimal"));
    }
    let mut out: Vec<u8> = Vec::new();
    let mut k: usize = 0;
    while k < n / 2
        invariant
            k <= n / 2,
            n == bytes@.len(),
            bytes@ == vstd::utf8::encode_utf8(value@),
            out@.len() == k,
            pairs_decode_before(bytes@, k as int),
            forall|j: int| 0 <= j < k ==> Some(#[trigger] out@[j]) == hex_pair(bytes@[2 * j], bytes@[2 * j + 1]),
        decreases n / 2 - k,
    {
        let b0 = bytes[2 * k];
        let b1 = bytes[2 * k + 1];
        let low_ok = (0x30 <= b1 && b1 <= 0x39) || (0x41 <= b1 && b1 <= 0x46) || (0x61 <= b1 && b1 <= 0x66);
        let high_ok = (0x30 <= b0 && b0 <= 0x39) || (0x41 <= b0 && b0 <= 0x46) || (0x61 <= b0 && b0 <= 0x66);
        if !low_ok || (!high_ok && b0 != 0x2b) {
            assert(hex_pair(bytes@[2 * k as int], bytes@[2 * k + 1]) is None);
            return Err(ProfileError::new(ProfileErrorKind::Validation, "enrollment credential must be hexadecimal"));
        }
        let low: u8 = if b1 <= 0x39 {
            b1 - 0x30
        } else if b1 <= 0x46 {
            b1 - 0x41 + 10
        } else {
            b1 - 0x61 + 10
        };
        let octet: u8 = if b0 == 0x2b {
            low
        } else {
            let high: u8 = if b0 <= 0x39 {
                b0 - 0x30
            } else if b0 <= 0x46 {
                b0 - 0x41 + 10
            } else {
                b0 - 0x61 + 10
            };
            high * 16 + low
        };
        assert(hex_pair(bytes@[2 * k as int], bytes@[2 * k + 1]) == Some(octet));
        out.push(octet);
        k = k + 1;
    }
    assert(out@ =~= hex_octets(bytes@)->Some_0);
    Ok(out)
}

/// Refuses enrollment text longer than `MAX_ENROLLMENT_BYTES`, before it is
/// read.
pub fn check_enrollment_size(length: usize) -> (checked: Result<(), ProfileError>)
    ensures
        checked is Ok <==> length <= MAX_ENROLLMENT_BYTES,
        checked matches Err(e) ==> e.spec_kind() == ProfileErrorKind::Limit,
{
    if length > MAX_ENROLLMENT_BYTES {
        return Err(ProfileError::new(ProfileErrorKind::Limit, "enrollment exceeds 16 KiB"));
    }
    Ok(())
}

/// Why a bundle built from `node`, a credential and `trust` is refused, if
/// it is.
pub open spec fn issue_refusal(node: EnrollmentNode, credential: Seq<u8>, trust: EnrollmentTrust) -> Option<
    ProfileErrorKind,
> {
    if !(identifier_ok(node.id@) && profile_name_ok(node.name@) && !node.relay_address.ip.spec_is_unspecified()
        && server_name_valid(node.server_name@, node.server_address) && credential.len() == CREDENTIAL_BYTES
        && trust_ok(trust)) {
        Some(ProfileErrorKind::Validation)
    } else {
        None
    }
}

/// `secret://velum/enrollment/ID/PRINCIPAL`.
pub open spec fn credential_ref_text(id: Seq<char>, principal_id: u64) -> Seq<char> {
    seq![
        's', 'e', 'c', 'r', 'e', 't', ':', '/', '/', 'v', 'e', 'l', 'u', 'm', '/', 'e', 'n', 'r',
        'o', 'l', 'l', 'm', 'e', 'n', 't', '/',
    ] + id + seq!['/'] + decimal_chars(principal_id as nat)
}

proof fn lemma_hex_text(c: Seq<u8>)
    ensures
        vstd::utf8::is_ascii_chars(hex_text(c)),
        hex_octets(vstd::utf8::encode_utf8(hex_text(c))) == Some(c) || c.len() == 0,
        pairs_are_text(vstd::utf8::encode_utf8(hex_text(c))),
        ascii_lowercase(hex_text(c)) == hex_text(c),
{
    let t = hex_text(c);
    assert forall|k: int| 0 <= k < t.len() implies '\0' <= #[trigger] t[k] <= '\u{7f}' && (
        '0' <= t[k] <= '9' || 'a' <= t[k] <= 'f') by {
        let d: int = if k % 2 == 0 { c[k / 2] / 16 } else { c[k / 2] % 16 } as int;
        assert(0 <= d < 16);
    }
    vstd::utf8::is_ascii_chars_encode_utf8(t);
    let b = vstd::utf8::encode_utf8(t);
    assert(b.len() == 2 * c.len());
    assert forall|j: int| 0 <= j < c.len() implies #[trigger] hex_pair(b[2 * j], b[2 * j + 1])
        == Some(c[j]) by {
        let hi = c[j] / 16;
        let lo = c[j] % 16;
        assert(t[2 * j] == hex_char(hi as int));
        assert(t[2 * j + 1] == hex_char(lo as int));
        assert(b[2 * j] == t[2 * j] as u8);
        assert(b[2 * j + 1] == t[2 * j + 1] as u8);
        assert(is_hex_byte(b[2 * j]) && hex_byte_value(b[2 * j]) == hi);
        assert(is_hex_byte(b[2 * j + 1]) && hex_byte_value(b[2 * j + 1]) == lo);
        assert(16 * hi + lo == c[j]);
    }
    assert(pairs_decode_before(b, c.len() as int));
    if c.len() > 0 {
        assert(hex_octets(b)->Some_0 =~= c);
    }
    assert(ascii_lowercase(t) =~= t);
}

impl EnrollmentBundle {
    /// Validates the bundle and writes its credential in small letters; a
    /// refused bundle is left as it was.
    #[verifier::loop_isolation(false)]
    pub fn validate_and_normalize(&mut self) -> (normalized: Result<(), ProfileError>)
        requires
            pairs_are_text(vstd::utf8::encode_utf8(old(self).credential@)),
        ensures
            match enrollment_refusal(*old(self)) {
                Some(k) => normalized matches Err(e) && e.spec_kind() == k && *final(self) == *old(self),
                None => {
                    &&& normalized is Ok
                    &&& final(self).credential@ == ascii_lowercase(old(self).credential@)
                    &&& final(self).kind == old(self).kind
                    &&& final(self).version == old(self).version
                    &&& final(self).node == old(self).node
                    &&& final(self).principal_id == old(self).principal_id
                    &&& final(self).trust == old(self).trust
                },
            },
    {
        proof {
            reveal_strlit("velum-enrollment");
            assert("velum-enrollment"@ =~= enrollment_kind());
        }
        if !crate::routing::str_equal(self.kind.as_str(), "velum-enrollment") {
            return Err(ProfileError::new(ProfileErrorKind::Validation, "enrollment kind is invalid"));
        }
        if self.version != ENROLLMENT_VERSION {
            return Err(ProfileError::new(ProfileErrorKind::UnsupportedVersion, "unsupported enrollment version"));
        }
        if !validate_identifier(self.node.id.as_str()) {
            return Err(ProfileError::new(ProfileErrorKind::Validation, "enrollment node id is invalid"));
        }
        if trim(self.node.name.as_str()).unicode_len() == 0 || self.node.name.as_str().as_bytes().len() > 128 {
            return Err(ProfileError::new(ProfileErrorKind::Validation, "enrollment node name is invalid"));
        }
        if self.node.relay_address.ip.is_unspecified() {
            return Err(
                ProfileError::new(ProfileErrorKind::Validation, "enrollment relay address must be client reachable"),
            );
        }
        if !valid_server_name(self.node.server_name.as_str(), self.node.server_address) {
            return Err(ProfileError::new(ProfileErrorKind::Validation, "server name is invalid"));
        }
        let credential = decode_hex(self.credential.as_str())?;
        if credential.len() != CREDENTIAL_BYTES {
            return Err(
                ProfileError::new(ProfileErrorKind::Validation, "enrollment credential must contain exactly 32 bytes"),
            );
        }
        match &self.trust {
            EnrollmentTrust::CustomCa { certificate_pem } => {
                if certificate_pem.unicode_len() == 0 || certificate_pem.as_str().as_bytes().len() > MAX_CERTIFICATE_BYTES
                    || !contains_marker(certificate_pem.as_str()) {
                    return Err(
                        ProfileError::new(ProfileErrorKind::Validation, "enrollment CA certificate is invalid or too large"),
                    );
                }
            },
            EnrollmentTrust::System => {},
        }
        self.credential = to_ascii_lowercase(self.credential.as_str());
        Ok(())
    }

    /// A bundle for `node` carrying `credential` as hexadecimal text.
    pub fn new(node: EnrollmentNode, principal_id: u64, credential: &[u8], trust: EnrollmentTrust) -> (bundle:
        Result<Self, ProfileError>)
        ensures
            match issue_refusal(node, credential@, trust) {
                Some(k) => bundle matches Err(e) && e.spec_kind() == k,
                None => bundle matches Ok(b) && {
                    &&& b.kind@ == enrollment_kind()
                    &&& b.version == ENROLLMENT_VERSION
                    &&& b.node == node
                    &&& b.principal_id == principal_id
                    &&& b.credential@ == hex_text(credential@)
                    &&& b.trust == trust
                },
            },
    {
        proof {
            reveal_strlit("velum-enrollment");
            assert("velum-enrollment"@ =~= enrollment_kind());
            lemma_hex_text(credential@);
        }
        let mut bundle = EnrollmentBundle {
            kind: String::from_str("velum-enrollment"),
            version: ENROLLMENT_VERSION,
            node,
            principal_id,
            credential: encode_hex(credential),
            trust,
        };
        proof {
            if credential@.len() == 0 {
                assert(vstd::utf8::encode_utf8(bundle.credential@).len() == 0);
            }
        }
        bundle.validate_and_normalize()?;
        Ok(bundle)
    }

    /// The credential's octets.
    pub fn credential_bytes(&self) -> (octets: Result<Vec<u8>, ProfileError>)
        requires
            pairs_are_text(vstd::utf8::encode_utf8(self.credential@)),
        ensures
            match hex_octets(vstd::utf8::encode_utf8(self.credential@)) {
                Some(o) => octets matches Ok(v) && v@ == o,
                None => octets matches Err(e) && e.spec_kind() == ProfileErrorKind::Validation,
            },
    {
        decode_hex(self.credential.as_str())
    }

    /// Where the credential is kept in secure storage.
    pub fn credential_ref(&self) -> (reference: String)
        ensures
            reference@ == credential_ref_text(self.node.id@, self.principal_id),
    {
        proof {
            reveal_strlit("secret://velum/enrollment/");
            reveal_strlit("/");
        }
        let mut reference = String::from_str("secret://velum/enrollment/");
        reference.append(self.node.id.as_str());
        reference.append("/");
        push_decimal(&mut reference, self.principal_id);
        assert(reference@ =~= credential_ref_text(self.node.id@, self.principal_id));
        reference
    }
}

} // verus!
