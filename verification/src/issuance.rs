//! Decisions of issuing and revoking client credentials: which principal a
//! new client gets, what its secret file and relay node are named, and which
//! credential a revocation removes. Reading secrets, writing files and
//! rolling back are the application's.
use vstd::prelude::*;

use crate::operator::{client_name_message, client_name_ok, decimal_chars, push_decimal, slug, slug_of, validate_client_name};
use crate::routing::str_equal;
use crate::settings::CredentialConfig;

verus! {

/// Octets of a client credential.
pub const CREDENTIAL_SECRET_BYTES: usize = 32;

/// The largest principal identifier among `credentials`, or 0.
pub open spec fn max_principal(credentials: Seq<CredentialConfig>) -> u64
    decreases credentials.len(),
{
    if credentials.len() == 0 {
        0
    } else {
        let rest = max_principal(credentials.drop_last());
        if credentials.last().id > rest {
            credentials.last().id
        } else {
            rest
        }
    }
}

/// Whether some credential is named `name`.
pub open spec fn name_taken(credentials: Seq<CredentialConfig>, name: Seq<char>) -> bool {
    exists|i: int| 0 <= i < credentials.len() && ((#[trigger] credentials[i]).name matches Some(n) && n@ == name)
}

/// The first credential whose secret is not 32 octets, if any.
pub open spec fn first_legacy_secret(secret_lengths: Seq<usize>) -> Option<int> {
    if exists|i: int| 0 <= i < secret_lengths.len() && #[trigger] secret_lengths[i] != CREDENTIAL_SECRET_BYTES {
        Some(
            choose|i: int|
                0 <= i < secret_lengths.len() && #[trigger] secret_lengths[i] != CREDENTIAL_SECRET_BYTES
                    && forall|j: int| 0 <= j < i ==> secret_lengths[j] == CREDENTIAL_SECRET_BYTES,
        )
    } else {
        None
    }
}

/// What issuing to `name` gives, given the length of each credential's
/// secret: the new principal, or the refusal's message. A bad name, a secret
/// that is not 32 octets, a name in use, or an exhausted identifier space
/// refuses, in that order.
pub open spec fn issue_outcome(credentials: Seq<CredentialConfig>, secret_lengths: Seq<usize>, name: Seq<char>) -> Result<u64, Seq<char>> {
    if !client_name_ok(name) {
        Err(client_name_message())
    } else if first_legacy_secret(secret_lengths) is Some {
        Err("credential "@ + decimal_chars(credentials[first_legacy_secret(secret_lengths)->Some_0].id as nat)
            + " is not 32 bytes; rotate legacy credentials before issuing an enrollment"@)
    } else if name_taken(credentials, name) {
        Err("client "@ + name + " is already configured"@)
    } else if max_principal(credentials) == u64::MAX {
        Err("principal id space is exhausted"@)
    } else {
        Ok((max_principal(credentials) + 1) as u64)
    }
}

/// The principal a new client named `name` gets: one more than the largest
/// configured one.
#[verifier::loop_isolation(false)]
pub fn plan_issue(credentials: &Vec<CredentialConfig>, secret_lengths: &Vec<usize>, name: &str) -> (principal:
    Result<u64, String>)
    requires
        secret_lengths@.len() == credentials@.len(),
    ensures
        match issue_outcome(credentials@, secret_lengths@, name@) {
            Ok(p) => principal == Ok::<u64, String>(p),
            Err(m) => principal matches Err(e) && e@ == m,
        },
{
    validate_client_name(name)?;
    let n = credentials.len();
    let mut i: usize = 0;
    while i < n
        invariant
            i <= n,
            n == credentials@.len(),
            forall|k: int| 0 <= k < i ==> #[trigger] secret_lengths@[k] == CREDENTIAL_SECRET_BYTES,
        decreases n - i,
    {
        if secret_lengths[i] != CREDENTIAL_SECRET_BYTES {
            proof {
                assert(secret_lengths@[i as int] != CREDENTIAL_SECRET_BYTES);
                let k = choose|k: int|
                    0 <= k < secret_lengths@.len() && #[trigger] secret_lengths@[k] != CREDENTIAL_SECRET_BYTES
                        && forall|j: int| 0 <= j < k ==> secret_lengths@[j] == CREDENTIAL_SECRET_BYTES;
                assert(forall|j: int| 0 <= j < i ==> secret_lengths@[j] == CREDENTIAL_SECRET_BYTES);
                if k < i {
                    assert(secret_lengths@[k] == CREDENTIAL_SECRET_BYTES);
                } else if k > i {
                    assert(secret_lengths@[i as int] == CREDENTIAL_SECRET_BYTES);
                }
                assert(first_legacy_secret(secret_lengths@) == Some(i as int));
            }
            let mut message = String::from_str("credential ");
            push_decimal(&mut message, credentials[i].id);
            message.append(" is not 32 bytes; rotate legacy credentials before issuing an enrollment");
            return Err(message);
        }
        i = i + 1;
    }
    let mut j: usize = 0;
    let mut largest: u64 = 0;
    assert(credentials@.take(0) =~= Seq::<CredentialConfig>::empty());
    while j < n
        invariant
            j <= n,
            n == credentials@.len(),
            largest == max_principal(credentials@.take(j as int)),
            !name_taken(credentials@.take(j as int), name@),
        decreases n - j,
    {
        proof {
            assert(credentials@.take(j + 1).drop_last() =~= credentials@.take(j as int));
            assert(credentials@.take(j + 1).last() == credentials@[j as int]);
        }
        let taken = match &credentials[j].name {
            Some(existing) => str_equal(existing.as_str(), name),
            None => false,
        };
        if taken {
            proof {
                assert(credentials@[j as int].name matches Some(e) && e@ == name@);
                assert(name_taken(credentials@, name@));
            }
            let mut message = String::from_str("client ");
            message.append(name);
            message.append(" is already configured");
            return Err(message);
        }
        if credentials[j].id > largest {
            largest = credentials[j].id;
        }
        proof {
            let t = credentials@.take(j + 1);
            assert forall|k: int| 0 <= k < t.len() implies !(((#[trigger] t[k]).name matches Some(e) && e@ == name@)) by {
                if k < j {
                    assert(t[k] == credentials@.take(j as int)[k]);
                }
            }
        }
        j = j + 1;
    }
    assert(credentials@.take(n as int) =~= credentials@);
    if largest == u64::MAX {
        return Err(String::from_str("principal id space is exhausted"));
    }
    Ok(largest + 1)
}

/// `SLUG-PRINCIPAL.hex`, the secret file of a client.
pub open spec fn secret_file_text(name: Seq<char>, principal: u64) -> Seq<char> {
    slug_of(name) + seq!['-'] + decimal_chars(principal as nat) + seq!['.', 'h', 'e', 'x']
}

/// The name of the secret file of client `name` with `principal`.
pub fn secret_file_name(name: &str, principal: u64) -> (file: String)
    ensures
        file@ == secret_file_text(name@, principal),
{
    proof {
        reveal_strlit("-");
        reveal_strlit(".hex");
    }
    let mut file = slug(name);
    file.append("-");
    push_decimal(&mut file, principal);
    file.append(".hex");
    assert(file@ =~= secret_file_text(name@, principal));
    file
}

/// `relay-PRINCIPAL`, the node an enrollment for `principal` installs.
pub open spec fn relay_node_text(principal: u64) -> Seq<char> {
    seq!['r', 'e', 'l', 'a', 'y', '-'] + decimal_chars(principal as nat)
}

/// The identifier of the node an enrollment for `principal` installs.
pub fn relay_node_id(principal: u64) -> (id: String)
    ensures
        id@ == relay_node_text(principal),
{
    proof {
        reveal_strlit("relay-");
    }
    let mut id = String::from_str("relay-");
    push_decimal(&mut id, principal);
    id
}

/// Which credential a revocation names.
#[derive(Clone, Debug, PartialEq, Eq)]
pub enum RevokeSelector {
    Id(u64),
    Name(String),
}

/// Whether `credential` is the one `selector` names.
pub open spec fn selects(selector: RevokeSelector, credential: CredentialConfig) -> bool {
    match selector {
        RevokeSelector::Id(id) => credential.id == id,
        RevokeSelector::Name(name) => credential.name matches Some(n) && n@ == name@,
    }
}

/// The position of the credential a revocation removes: the first one the
/// selector names; refused when it would remove the last credential or
/// names none.
pub fn revoke_position(credentials: &Vec<CredentialConfig>, selector: &RevokeSelector) -> (position:
    Result<usize, String>)
    ensures
        credentials@.len() == 1 ==> (position matches Err(m)
            && m@ == "cannot revoke the final configured credential"@),
        credentials@.len() != 1 ==> match position {
            Ok(p) => p < credentials@.len() && selects(*selector, credentials@[p as int]) && forall|k: int|
                0 <= k < p ==> !selects(*selector, #[trigger] credentials@[k]),
            Err(m) => m@ == "client credential was not found"@ && forall|k: int|
                0 <= k < credentials@.len() ==> !selects(*selector, #[trigger] credentials@[k]),
        },
{
    if credentials.len() == 1 {
        return Err(String::from_str("cannot revoke the final configured credential"));
    }
    let mut i: usize = 0;
    while i < credentials.len()
        invariant
            i <= credentials@.len(),
            credentials@.len() != 1,
            forall|k: int| 0 <= k < i ==> !selects(*selector, #[trigger] credentials@[k]),
        decreases credentials@.len() - i,
    {
        let found = match selector {
            RevokeSelector::Id(id) => credentials[i].id == *id,
            RevokeSelector::Name(name) => match &credentials[i].name {
                Some(existing) => str_equal(existing.as_str(), name.as_str()),
                None => false,
            },
        };
        if found {
            return Ok(i);
        }
        i = i + 1;
    }
    Err(String::from_str("client credential was not found"))
}

} // verus!
