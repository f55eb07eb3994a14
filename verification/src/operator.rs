//! Operator-side rules of the relay node: which names ACME may certify,
//! how client names become file names, how a systemd unit names and quotes
//! its paths, and how a credential secret file is decoded.
use vstd::prelude::*;

use crate::routing::{dot_free, is_label_char};
use crate::text::{to_ascii_lowercase, trim, trim_whitespace, ascii_lowercase};

verus! {

/// Whether `c` is an ASCII letter.
pub open spec fn is_ascii_letter(c: char) -> bool {
    ('a' <= c <= 'z') || ('A' <= c <= 'Z')
}

/// Whether `c` is an ASCII letter or digit.
pub open spec fn is_ascii_alphanumeric(c: char) -> bool {
    is_ascii_letter(c) || ('0' <= c <= '9')
}

/// Whether ACME may be asked to certify `d`: dot-separated labels of ASCII
/// letters, digits and hyphens, each non-empty and at most 63 characters,
/// 253 characters in all, with at least one letter so that no IP address
/// qualifies.
pub open spec fn acme_domain(d: Seq<char>) -> bool {
    &&& 0 < d.len() <= 253
    &&& exists|k: int| 0 <= k < d.len() && is_ascii_letter(#[trigger] d[k])
    &&& forall|k: int| 0 <= k < d.len() ==> is_label_char(#[trigger] d[k]) || d[k] == '.'
    &&& d[0] != '.'
    &&& d.last() != '.'
    &&& forall|k: int| 0 < k < d.len() && #[trigger] d[k] == '.' ==> d[k - 1] != '.'
    &&& forall|a: int, b: int| 0 <= a <= b < d.len() && #[trigger] dot_free(d, a, b) ==> b - a < 63
}

/// Whether ACME may be asked to certify `domain`.
#[verifier::loop_isolation(false)]
pub fn valid_domain(domain: &str) -> (valid: bool)
    ensures
        valid == acme_domain(domain@),
{
    let n = domain.unicode_len();
    if n == 0 || n > 253 {
        return false;
    }
    let mut i: usize = 0;
    let mut run: usize = 0;
    let mut letter = false;
    while i < n
        invariant
            i <= n,
            n == domain@.len(),
            run <= i,
            run <= 63,
            letter <==> exists|k: int| 0 <= k < i && is_ascii_letter(#[trigger] domain@[k]),
            forall|k: int| 0 <= k < i ==> is_label_char(#[trigger] domain@[k]) || domain@[k] == '.',
            i > 0 ==> domain@[0] != '.',
            forall|k: int| 0 < k < i && #[trigger] domain@[k] == '.' ==> domain@[k - 1] != '.',
            forall|k: int| i - run <= k < i ==> #[trigger] domain@[k] != '.',
            run < i ==> domain@[i - run - 1] == '.',
            forall|a: int, b: int| 0 <= a <= b < i && #[trigger] dot_free(domain@, a, b) ==> b - a < 63,
        decreases n - i,
    {
        let c = domain.get_char(i);
        if c == '.' {
            if i == 0 || domain.get_char(i - 1) == '.' {
                return false;
            }
            run = 0;
        } else {
            let alpha = ('a' <= c && c <= 'z') || ('A' <= c && c <= 'Z');
            let label = alpha || ('0' <= c && c <= '9') || c == '-';
            if !label {
                return false;
            }
            if run == 63 {
                proof {
                    let a = i - 63;
                    assert forall|k: int| a <= k <= i implies #[trigger] domain@[k] != '.' by {
                        if k < i {
                            assert(i - run <= k);
                        }
                    }
                    assert(dot_free(domain@, a, i as int));
                }
                return false;
            }
            proof {
                assert forall|a: int, b: int|
                    0 <= a <= b < i + 1 && #[trigger] dot_free(domain@, a, b) implies b - a < 63 by {
                    if b == i {
                        if a < i - run {
                            assert(domain@[i - run - 1] != '.');
                        }
                    }
                }
            }
            if alpha {
                letter = true;
            }
            run = run + 1;
        }
        i = i + 1;
    }
    domain.get_char(n - 1) != '.' && letter
}

/// Why an ACME policy cannot be configured.
#[derive(Clone, Copy, Debug, PartialEq, Eq, Structural)]
pub enum AcmePolicyError {
    EmptyEmail,
    InvalidDomains,
    EmptyDnsProvider,
}

/// Checks the operator's ACME policy in the order the operator is told:
/// a non-blank email, one or more certifiable domains, a non-blank DNS
/// provider.
#[verifier::loop_isolation(false)]
pub fn check_acme_policy(email: &str, domains: &Vec<String>, dns_provider: &str) -> (checked: Result<
    (),
    AcmePolicyError,
>)
    ensures
        trim_whitespace(email@).len() == 0 ==> checked == Err::<(), AcmePolicyError>(
            AcmePolicyError::EmptyEmail,
        ),
        trim_whitespace(email@).len() > 0 && !(domains@.len() > 0 && forall|i: int|
            0 <= i < domains@.len() ==> acme_domain(#[trigger] domains@[i]@)) ==> checked == Err::<
            (),
            AcmePolicyError,
        >(AcmePolicyError::InvalidDomains),
        trim_whitespace(email@).len() > 0 && domains@.len() > 0 && (forall|i: int|
            0 <= i < domains@.len() ==> acme_domain(#[trigger] domains@[i]@)) ==> (checked is Ok
            <==> trim_whitespace(dns_provider@).len() > 0),
        checked matches Err(e) ==> (e == AcmePolicyError::EmptyDnsProvider ==> trim_whitespace(
            dns_provider@,
        ).len() == 0),
{
    if trim(email).unicode_len() == 0 {
        return Err(AcmePolicyError::EmptyEmail);
    }
    if domains.len() == 0 {
        return Err(AcmePolicyError::InvalidDomains);
    }
    let mut i: usize = 0;
    while i < domains.len()
        invariant
            i <= domains@.len(),
            forall|k: int| 0 <= k < i ==> acme_domain(#[trigger] domains@[k]@),
        decreases domains@.len() - i,
    {
        if !valid_domain(domains[i].as_str()) {
            return Err(AcmePolicyError::InvalidDomains);
        }
        i = i + 1;
    }
    if trim(dns_provider).unicode_len() == 0 {
        return Err(AcmePolicyError::EmptyDnsProvider);
    }
    Ok(())
}

/// Whether `c` is a Unicode control character (general category Cc).
pub open spec fn is_control_char(c: char) -> bool {
    (c as u32) <= 0x1f || (0x7f <= (c as u32) && (c as u32) <= 0x9f)
}

fn is_control(c: char) -> (control: bool)
    ensures
        control == is_control_char(c),
{
    let v = c as u32;
    v <= 0x1f || (0x7f <= v && v <= 0x9f)
}

fn has_control(s: &str) -> (found: bool)
    ensures
        found == exists|k: int| 0 <= k < s@.len() && is_control_char(#[trigger] s@[k]),
{
    let n = s.unicode_len();
    let mut i: usize = 0;
    while i < n
        invariant
            i <= n,
            n == s@.len(),
            forall|k: int| 0 <= k < i ==> !is_control_char(#[trigger] s@[k]),
        decreases n - i,
    {
        if is_control(s.get_char(i)) {
            return true;
        }
        i = i + 1;
    }
    false
}

/// Whether `name` may name a client: not blank, at most 64 octets, and free
/// of control characters.
pub open spec fn client_name_ok(name: Seq<char>) -> bool {
    &&& trim_whitespace(name).len() > 0
    &&& vstd::utf8::encode_utf8(name).len() <= 64
    &&& forall|k: int| 0 <= k < name.len() ==> !is_control_char(#[trigger] name[k])
}

/// Why a client name is refused.
pub open spec fn client_name_message() -> Seq<char> {
    "client name must contain 1 to 64 printable characters"@
}

/// Accepts a client name of 1 to 64 printable octets.
pub fn validate_client_name(name: &str) -> (valid: Result<(), String>)
    ensures
        valid is Ok <==> client_name_ok(name@),
        valid matches Err(m) ==> m@ == client_name_message(),
{
    if trim(name).unicode_len() == 0 || name.as_bytes().len() > 64 || has_control(name) {
        Err(String::from_str("client name must contain 1 to 64 printable characters"))
    } else {
        Ok(())
    }
}

/// `c` kept when it is an ASCII letter or digit, in small letters, and a
/// hyphen otherwise.
pub open spec fn slug_char(c: char) -> char {
    if is_ascii_alphanumeric(c) {
        crate::text::ascii_lower(c)
    } else {
        '-'
    }
}

/// `s` without its leading and trailing hyphens.
pub open spec fn trim_hyphens(s: Seq<char>) -> Seq<char> {
    crate::text::trim_end_char(trim_start_char(s, '-'), '-')
}

/// `s` without its leading `c` characters.
pub open spec fn trim_start_char(s: Seq<char>, c: char) -> Seq<char>
    decreases s.len(),
{
    if s.len() > 0 && s[0] == c {
        trim_start_char(s.drop_first(), c)
    } else {
        s
    }
}

/// The file-name stem for a client: ASCII letters and digits kept in small
/// letters, every other character a hyphen, outer hyphens dropped, and
/// `client` when nothing is left.
pub open spec fn slug_of(value: Seq<char>) -> Seq<char> {
    let s = trim_hyphens(value.map_values(|c: char| slug_char(c)));
    if s.len() == 0 {
        seq!['c', 'l', 'i', 'e', 'n', 't']
    } else {
        s
    }
}

proof fn lemma_trim_start_char(s: Seq<char>, c: char, a: int)
    requires
        0 <= a <= s.len(),
        forall|k: int| 0 <= k < a ==> #[trigger] s[k] == c,
        a == s.len() || s[a] != c,
    ensures
        trim_start_char(s, c) == s.subrange(a, s.len() as int),
    decreases a,
{
    if a == 0 {
        assert(s.subrange(0, s.len() as int) =~= s);
    } else {
        lemma_trim_start_char(s.drop_first(), c, a - 1);
        assert(s.drop_first().subrange(a - 1, s.len() - 1) =~= s.subrange(a, s.len() as int));
    }
}

/// A file-name stem derived from a client name, free of path separators.
#[verifier::loop_isolation(false)]
pub fn slug(value: &str) -> (stem: String)
    ensures
        stem@ == slug_of(value@),
{
    let lower = to_ascii_lowercase(value);
    let n = lower.as_str().unicode_len();
    let ghost mapped = value@.map_values(|c: char| slug_char(c));
    let mut out = String::from_str("");
    proof {
        reveal_strlit("");
        reveal_strlit("-");
    }
    let mut i: usize = 0;
    while i < n
        invariant
            i <= n,
            n == value@.len(),
            lower@ == ascii_lowercase(value@),
            out@ == mapped.subrange(0, i as int),
        decreases n - i,
    {
        let c = lower.as_str().get_char(i);
        let keep = ('a' <= c && c <= 'z') || ('A' <= c && c <= 'Z') || ('0' <= c && c <= '9');
        proof {
            assert(c == crate::text::ascii_lower(value@[i as int]));
            assert(keep == is_ascii_alphanumeric(value@[i as int]));
        }
        if keep {
            out.append(lower.as_str().substring_char(i, i + 1));
        } else {
            out.append("-");
        }
        proof {
            assert(out@ =~= mapped.subrange(0, i + 1));
        }
        i = i + 1;
    }
    proof {
        assert(mapped.subrange(0, n as int) =~= mapped);
    }
    let stripped = crate::text::trim_end_matches(trim_start_matches(out.as_str(), '-'), '-');
    if stripped.unicode_len() == 0 {
        proof {
            reveal_strlit("client");
            assert("client"@ =~= seq!['c', 'l', 'i', 'e', 'n', 't']);
        }
        String::from_str("client")
    } else {
        String::from_str(stripped)
    }
}

/// `s` without its leading `c` characters.
pub fn trim_start_matches(s: &str, c: char) -> (trimmed: &str)
    ensures
        trimmed@ == trim_start_char(s@, c),
{
    let n = s.unicode_len();
    let mut a: usize = 0;
    while a < n && s.get_char(a) == c
        invariant
            a <= n,
            n == s@.len(),
            forall|k: int| 0 <= k < a ==> #[trigger] s@[k] == c,
        decreases n - a,
    {
        a = a + 1;
    }
    proof {
        lemma_trim_start_char(s@, c, a as int);
    }
    s.substring_char(a, n)
}

/// The lowercase hexadecimal digit for `d`.
pub open spec fn hex_char(d: int) -> char {
    if d < 10 {
        ('0' as u32 + d) as char
    } else {
        ('a' as u32 + d - 10) as char
    }
}

/// The decimal digit for `d`.
pub open spec fn decimal_char(d: int) -> char {
    ('0' as u32 + d) as char
}

pub(crate) fn push_digit(out: &mut String, d: u64)
    requires
        d < 16,
    ensures
        final(out)@ == old(out)@.push(hex_char(d as int)),
{
    match d {
        0 => {
            proof { reveal_strlit("0"); assert("0"@ =~= seq!['0']); }
            out.append("0");
        },
        1 => {
            proof { reveal_strlit("1"); assert("1"@ =~= seq!['1']); }
            out.append("1");
        },
        2 => {
            proof { reveal_strlit("2"); assert("2"@ =~= seq!['2']); }
            out.append("2");
        },
        3 => {
            proof { reveal_strlit("3"); assert("3"@ =~= seq!['3']); }
            out.append("3");
        },
        4 => {
            proof { reveal_strlit("4"); assert("4"@ =~= seq!['4']); }
            out.append("4");
        },
        5 => {
            proof { reveal_strlit("5"); assert("5"@ =~= seq!['5']); }
            out.append("5");
        },
        6 => {
            proof { reveal_strlit("6"); assert("6"@ =~= seq!['6']); }
            out.append("6");
        },
        7 => {
            proof { reveal_strlit("7"); assert("7"@ =~= seq!['7']); }
            out.append("7");
        },
        8 => {
            proof { reveal_strlit("8"); assert("8"@ =~= seq!['8']); }
            out.append("8");
        },
        9 => {
            proof { reveal_strlit("9"); assert("9"@ =~= seq!['9']); }
            out.append("9");
        },
        10 => {
            proof { reveal_strlit("a"); assert("a"@ =~= seq!['a']); }
            out.append("a");
        },
        11 => {
            proof { reveal_strlit("b"); assert("b"@ =~= seq!['b']); }
            out.append("b");
        },
        12 => {
            proof { reveal_strlit("c"); assert("c"@ =~= seq!['c']); }
            out.append("c");
        },
        13 => {
            proof { reveal_strlit("d"); assert("d"@ =~= seq!['d']); }
            out.append("d");
        },
        14 => {
            proof { reveal_strlit("e"); assert("e"@ =~= seq!['e']); }
            out.append("e");
        },
        15 => {
            proof { reveal_strlit("f"); assert("f"@ =~= seq!['f']); }
            out.append("f");
        },
        _ => {
            proof { reveal_strlit("f"); assert("f"@ =~= seq!['f']); }
            out.append("f");
        },
    }
}

/// The decimal numeral of `n`, without leading zeros.
pub open spec fn decimal_chars(n: nat) -> Seq<char>
    decreases n,
{
    if n < 10 {
        seq![decimal_char(n as int)]
    } else {
        decimal_chars(n / 10).push(decimal_char((n % 10) as int))
    }
}

/// Appends the decimal numeral of `n`.
pub fn push_decimal(out: &mut String, n: u64)
    ensures
        final(out)@ == old(out)@ + decimal_chars(n as nat),
    decreases n,
{
    if n >= 10 {
        push_decimal(out, n / 10);
    }
    push_digit(out, n % 10);
    proof {
        assert(hex_char((n % 10) as int) == decimal_char((n % 10) as int));
        if n >= 10 {
            assert(old(out)@ + decimal_chars((n / 10) as nat) + seq![decimal_char((n % 10) as int)]
                =~= old(out)@ + decimal_chars(n as nat));
        } else {
            assert(old(out)@.push(decimal_char(n as int)) =~= old(out)@ + decimal_chars(n as nat));
        }
    }
}

/// The FNV-1a hash of `bytes`.
pub open spec fn fnv1a(bytes: Seq<u8>) -> u64
    decreases bytes.len(),
{
    if bytes.len() == 0 {
        0xcbf29ce484222325
    } else {
        vstd::wrapping::u64_specs::wrapping_mul(
            fnv1a(bytes.drop_last()) ^ (bytes.last() as u64),
            0x100000001b3,
        )
    }
}

/// The sixteen lowercase hexadecimal digits of `h`, most significant first.
pub open spec fn hex16(h: u64) -> Seq<char> {
    Seq::new(16, |k: int| hex_char(((h >> ((60 - 4 * k) as u64)) & 0xf) as int))
}

/// The systemd unit name for a configuration at the path with encoded bytes
/// `path`: distinct, stable names for independent configurations.
pub open spec fn unit_name_text(path: Seq<u8>) -> Seq<char> {
    "velum-"@ + hex16(fnv1a(path)) + ".service"@
}

/// The systemd unit name for the configuration at `path`.
pub fn unit_name(path: &[u8]) -> (name: String)
    ensures
        name@ == unit_name_text(path@),
{
    let mut hash: u64 = 0xcbf29ce484222325;
    let mut i: usize = 0;
    while i < path.len()
        invariant
            i <= path@.len(),
            hash == fnv1a(path@.take(i as int)),
        decreases path@.len() - i,
    {
        proof {
            assert(path@.take(i + 1).drop_last() =~= path@.take(i as int));
        }
        hash = (hash ^ (path[i] as u64)).wrapping_mul(0x100000001b3);
        i = i + 1;
    }
    proof {
        assert(path@.take(path@.len() as int) =~= path@);
    }
    let mut name = String::from_str("velum-");
    let ghost start = name@;
    let mut k: u64 = 0;
    while k < 16
        invariant
            k <= 16,
            name@ == start + hex16(hash).subrange(0, k as int),
        decreases 16 - k,
    {
        let shift: u64 = 60 - 4 * k;
        let nibble = (hash >> shift) & 0xf;
        assert(nibble < 16) by (bit_vector)
            requires
                nibble == (hash >> shift) & 0xf,
        ;
        assert(hex16(hash)[k as int] == hex_char(nibble as int));
        push_digit(&mut name, nibble);
        proof {
            assert(name@ =~= start + hex16(hash).subrange(0, k + 1));
        }
        k = k + 1;
    }
    proof {
        assert(hex16(hash).subrange(0, 16) =~= hex16(hash));
    }
    name.append(".service");
    name
}

/// `c` escaped for a double-quoted systemd argument.
pub open spec fn systemd_escape_char(c: char) -> Seq<char> {
    if c == '\\' {
        seq!['\\', '\\']
    } else if c == '"' {
        seq!['\\', '"']
    } else {
        seq![c]
    }
}

/// `s` with backslashes and double quotes escaped.
pub open spec fn systemd_escape(s: Seq<char>) -> Seq<char>
    decreases s.len(),
{
    if s.len() == 0 {
        Seq::empty()
    } else {
        systemd_escape(s.drop_last()) + systemd_escape_char(s.last())
    }
}

/// `s` as one double-quoted systemd argument.
pub open spec fn systemd_quoted(s: Seq<char>) -> Seq<char> {
    seq!['"'] + systemd_escape(s) + seq!['"']
}

/// Quotes `value` as one systemd command-line argument.
#[verifier::loop_isolation(false)]
pub fn systemd_argument(value: &str) -> (quoted: String)
    ensures
        quoted@ == systemd_quoted(value@),
{
    proof {
        reveal_strlit("\"");
        reveal_strlit("\\\\");
        reveal_strlit("\\\"");
        assert("\""@ =~= seq!['"']);
        assert("\\\\"@ =~= seq!['\\', '\\']);
        assert("\\\""@ =~= seq!['\\', '"']);
    }
    let mut out = String::from_str("\"");
    let n = value.unicode_len();
    let mut i: usize = 0;
    while i < n
        invariant
            i <= n,
            n == value@.len(),
            out@ == seq!['"'] + systemd_escape(value@.take(i as int)),
        decreases n - i,
    {
        let c = value.get_char(i);
        proof {
            assert(value@.take(i + 1).drop_last() =~= value@.take(i as int));
            assert(value@.take(i + 1).last() == c);
        }
        if c == '\\' {
            out.append("\\\\");
        } else if c == '"' {
            out.append("\\\"");
        } else {
            out.append(value.substring_char(i, i + 1));
        }
        proof {
            assert(out@ =~= seq!['"'] + systemd_escape(value@.take(i + 1)));
        }
        i = i + 1;
    }
    proof {
        assert(value@.take(n as int) =~= value@);
    }
    out.append("\"");
    out
}

/// The user unit that runs `binary serve --config config` and gives it
/// five seconds beyond its own shutdown timeout to stop.
pub open spec fn unit_text(binary: Seq<char>, config: Seq<char>, shutdown_timeout_secs: u64) -> Seq<char> {
    "[Unit]\nDescription=Velum experimental relay\nAfter=network-online.target\nWants=network-online.target\n\n[Service]\nType=simple\nExecStart="@
        + systemd_quoted(binary) + " serve --config "@ + systemd_quoted(config)
        + "\nRestart=on-failure\nRestartSec=5\nKillSignal=SIGTERM\nTimeoutStopSec="@
        + decimal_chars(
        (if shutdown_timeout_secs > u64::MAX - 5 {
            u64::MAX
        } else {
            (shutdown_timeout_secs + 5) as u64
        }) as nat,
    )
        + "\nUMask=0077\nNoNewPrivileges=true\nPrivateTmp=true\n\n[Install]\nWantedBy=default.target\n"@
}

/// Renders the systemd user unit for `binary` and `config`.
pub fn render_unit(binary: &str, config: &str, shutdown_timeout_secs: u64) -> (unit: String)
    ensures
        unit@ == unit_text(binary@, config@, shutdown_timeout_secs),
{
    let mut unit = String::from_str(
        "[Unit]\nDescription=Velum experimental relay\nAfter=network-online.target\nWants=network-online.target\n\n[Service]\nType=simple\nExecStart=",
    );
    unit.append(systemd_argument(binary).as_str());
    unit.append(" serve --config ");
    unit.append(systemd_argument(config).as_str());
    unit.append("\nRestart=on-failure\nRestartSec=5\nKillSignal=SIGTERM\nTimeoutStopSec=");
    push_decimal(&mut unit, shutdown_timeout_secs.saturating_add(5));
    unit.append(
        "\nUMask=0077\nNoNewPrivileges=true\nPrivateTmp=true\n\n[Install]\nWantedBy=default.target\n",
    );
    unit
}

/// Accepts a unit path free of control characters; `label` names it in the
/// refusal.
pub fn validate_unit_path(path: &str, label: &str) -> (valid: Result<(), String>)
    ensures
        valid is Ok <==> forall|k: int| 0 <= k < path@.len() ==> !is_control_char(#[trigger] path@[k]),
{
    if has_control(path) {
        let mut message = String::from_str(label);
        message.append(" path must not contain control characters");
        return Err(message);
    }
    Ok(())
}

/// What removing one locally deployed relay did.
#[derive(Clone, Copy, Debug, PartialEq, Eq, Structural)]
pub struct Report {
    pub service_removed: bool,
    pub configuration_removed: bool,
}

} // verus!
