//! Direct client configuration and the open record that starts a relay stream.
use vstd::prelude::*;
use crate::bytes::{be16, lemma_be16_roundtrip, push_all, push_u16};
use crate::node::{lemma_open_record_roundtrip, spec_open_record, spec_open_valid};
use crate::lifecycle::ClientError;
use crate::net::SocketAddress;
use vstd::string::StringSliceAdditionalSpecFns;

verus! {

/// Longest credential a client presents.
pub const MAX_CREDENTIAL_BYTES: usize = 128;

/// Bytes of the two length fields that start an open record.
pub const OPEN_HEADER_BYTES: usize = 4;

/// The version of the direct in-process API.
pub const API_VERSION: u16 = 1;

/// Why a client configuration was refused.
#[derive(Clone, Copy, Debug, PartialEq, Eq, Structural)]
pub enum ClientConfigError {
    EmptyServerName,
    InvalidCredentialLength,
    MissingRootCertificate,
    ZeroConnectTimeout,
}

/// Immutable inputs for one authenticated client connection.
pub struct ClientConfig {
    relay_address: SocketAddress,
    server_name: String,
    credential: Vec<u8>,
    root_certificates: Vec<Vec<u8>>,
    connect_timeout_millis: u64,
}

/// The first rule that a configuration breaks, in the order they are checked.
pub open spec fn config_refusal(
    server_name: Seq<char>,
    credential: Seq<u8>,
    root_certificate_count: nat,
    connect_timeout_millis: u64,
) -> Option<ClientConfigError> {
    if server_name.len() == 0 {
        Some(ClientConfigError::EmptyServerName)
    } else if credential.len() == 0 || credential.len() > MAX_CREDENTIAL_BYTES {
        Some(ClientConfigError::InvalidCredentialLength)
    } else if root_certificate_count == 0 {
        Some(ClientConfigError::MissingRootCertificate)
    } else if connect_timeout_millis == 0 {
        Some(ClientConfigError::ZeroConnectTimeout)
    } else {
        None
    }
}

impl ClientConfig {
    pub closed spec fn spec_relay_address(&self) -> SocketAddress {
        self.relay_address
    }

    pub closed spec fn spec_server_name(&self) -> Seq<char> {
        self.server_name@
    }

    pub closed spec fn spec_credential(&self) -> Seq<u8> {
        self.credential@
    }

    pub closed spec fn spec_root_certificates(&self) -> Seq<Seq<u8>> {
        self.root_certificates@.map_values(|c: Vec<u8>| c@)
    }

    pub closed spec fn spec_connect_timeout_millis(&self) -> u64 {
        self.connect_timeout_millis
    }

    /// Builds a configuration, refusing an empty server name, a credential that is
    /// empty or longer than the limit, no trust roots, or a zero connect timeout.
    pub fn new(
        relay_address: SocketAddress,
        server_name: String,
        credential: Vec<u8>,
        root_certificates: Vec<Vec<u8>>,
        connect_timeout_millis: u64,
    ) -> (config: Result<Self, ClientConfigError>)
        ensures
            config_refusal(
                server_name@,
                credential@,
                root_certificates@.len(),
                connect_timeout_millis,
            ) matches Some(error) ==> config == Err::<Self, ClientConfigError>(error),
            config_refusal(server_name@, credential@, root_certificates@.len(), connect_timeout_millis)
                is None ==> (config matches Ok(c) && {
                &&& c.spec_relay_address() == relay_address
                &&& c.spec_server_name() == server_name@
                &&& c.spec_credential() == credential@
                &&& c.spec_root_certificates() == root_certificates@.map_values(|r: Vec<u8>| r@)
                &&& c.spec_connect_timeout_millis() == connect_timeout_millis
            }),
    {
        if server_name.as_str().is_empty() {
            return Err(ClientConfigError::EmptyServerName);
        }
        if credential.len() == 0 || credential.len() > MAX_CREDENTIAL_BYTES {
            return Err(ClientConfigError::InvalidCredentialLength);
        }
        if root_certificates.len() == 0 {
            return Err(ClientConfigError::MissingRootCertificate);
        }
        if connect_timeout_millis == 0 {
            return Err(ClientConfigError::ZeroConnectTimeout);
        }
        Ok(ClientConfig {
            relay_address,
            server_name,
            credential,
            root_certificates,
            connect_timeout_millis,
        })
    }

    pub fn relay_address(&self) -> (address: &SocketAddress)
        ensures
            *address == self.spec_relay_address(),
    {
        &self.relay_address
    }

    pub fn server_name(&self) -> (name: &str)
        ensures
            name@ == self.spec_server_name(),
    {
        self.server_name.as_str()
    }

    pub fn credential(&self) -> (credential: &[u8])
        ensures
            credential@ == self.spec_credential(),
    {
        self.credential.as_slice()
    }

    pub fn root_certificate_count(&self) -> (count: usize)
        ensures
            count == self.spec_root_certificates().len(),
    {
        self.root_certificates.len()
    }

    pub fn connect_timeout_millis(&self) -> (millis: u64)
        ensures
            millis == self.spec_connect_timeout_millis(),
    {
        self.connect_timeout_millis
    }
}

/// The open record: both lengths, then the credential, then the target's text.
pub open spec fn open_record(credential: Seq<u8>, target: Seq<u8>) -> Seq<u8> {
    be16(credential.len() as u16) + be16(target.len() as u16) + credential + target
}

/// Encodes the record that opens one reliable stream to `target`, given as the
/// text of its socket address; either length past a 16-bit field is refused.
pub fn encode_open(credential: &[u8], target: &str) -> (encoded: Result<Vec<u8>, ClientError>)
    ensures
        (credential@.len() > u16::MAX || target.spec_bytes().len() > u16::MAX) ==> encoded
            == Err::<Vec<u8>, ClientError>(ClientError::ControlTooLarge),
        (credential@.len() <= u16::MAX && target.spec_bytes().len() <= u16::MAX) ==> (
        encoded matches Ok(bytes) && bytes@ == open_record(credential@, target.spec_bytes())),
{
    if credential.len() > 65535 {
        return Err(ClientError::ControlTooLarge);
    }
    let target_bytes = target.as_bytes();
    if target_bytes.len() > 65535 {
        return Err(ClientError::ControlTooLarge);
    }
    let mut encoded: Vec<u8> = Vec::new();
    push_u16(&mut encoded, credential.len() as u16);
    push_u16(&mut encoded, target_bytes.len() as u16);
    push_all(&mut encoded, credential);
    push_all(&mut encoded, target_bytes);
    Ok(encoded)
}

/// The relay accepts the open record of a client whose credential has 1 to 128
/// octets, and the only credential and target it can read from it are the
/// ones the client wrote.
pub proof fn lemma_relay_reads_client_open_record(credential: Seq<u8>, target: Seq<u8>)
    requires
        1 <= credential.len() <= MAX_CREDENTIAL_BYTES,
        target.len() <= u16::MAX,
    ensures
        spec_open_valid(open_record(credential, target)),
        forall|secret: Seq<u8>, text: Seq<u8>|
            secret.len() <= u16::MAX && text.len() <= u16::MAX && #[trigger] spec_open_record(
                secret,
                text,
            ) == open_record(credential, target) ==> secret == credential && text == target,
{
    lemma_open_record_roundtrip(credential, target);
    assert(open_record(credential, target) =~= spec_open_record(credential, target));
    assert forall|secret: Seq<u8>, text: Seq<u8>|
        secret.len() <= u16::MAX && text.len() <= u16::MAX && #[trigger] spec_open_record(
            secret,
            text,
        ) == open_record(credential, target) implies secret == credential && text == target by {
        let b = open_record(credential, target);
        lemma_be16_roundtrip(secret.len() as u16);
        lemma_be16_roundtrip(credential.len() as u16);
        lemma_be16_roundtrip(text.len() as u16);
        lemma_be16_roundtrip(target.len() as u16);
        assert(b.subrange(0, 2) =~= be16(secret.len() as u16));
        assert(b.subrange(0, 2) =~= be16(credential.len() as u16));
        assert(b.subrange(2, 4) =~= be16(text.len() as u16));
        assert(b.subrange(2, 4) =~= be16(target.len() as u16));
        assert(secret.len() == credential.len());
        assert(text.len() == target.len());
        assert(b.subrange(4, 4 + secret.len() as int) =~= secret);
        assert(b.subrange(4, 4 + credential.len() as int) =~= credential);
        assert(b.subrange(4 + secret.len() as int, b.len() as int) =~= text);
        assert(b.subrange(4 + credential.len() as int, b.len() as int) =~= target);
    }
}

} // verus!
