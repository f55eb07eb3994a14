//! Command-line options of the relay node's operator commands. A flag that
//! takes a value consumes the next argument; a repeated flag's last value
//! wins, except `--domain`, whose values accumulate in order. Paths stay
//! text: `None` stands for the default configuration path.
use vstd::prelude::*;

use crate::issuance::RevokeSelector;
use crate::net::SocketAddress;
use crate::routing::str_equal;
use crate::text::{parse_unsigned, unsigned_value};

verus! {

/// The views of a list of arguments.
pub open spec fn args_view(arguments: Seq<String>) -> Seq<Seq<char>> {
    arguments.map_values(|a: String| a@)
}

/// What `--config PATH` alone, or nothing, selects: `Some(None)` for the
/// default path, `Some(Some(path))`, or `None` when the arguments are
/// anything else.
pub open spec fn config_path_of(args: Seq<Seq<char>>) -> Option<Option<Seq<char>>> {
    if args.len() == 0 {
        Some(None)
    } else if args.len() == 2 && args[0] == "--config"@ {
        Some(Some(args[1]))
    } else {
        None
    }
}

/// Reads the optional `--config PATH` of commands that take nothing else.
pub fn config_path(arguments: &Vec<String>) -> (path: Result<Option<String>, String>)
    ensures
        match config_path_of(args_view(arguments@)) {
            Some(None) => path matches Ok(None),
            Some(Some(p)) => path matches Ok(Some(q)) && q@ == p,
            None => path is Err,
        },
{
    if arguments.len() == 0 {
        return Ok(None);
    }
    if arguments.len() == 2 && str_equal(arguments[0].as_str(), "--config") {
        return Ok(Some(arguments[1].clone()));
    }
    Err(String::from_str("expected optional --config PATH"))
}

/// Options of `deploy`.
pub struct DeployOptions {
    pub config_path: Option<String>,
    pub binary: Option<String>,
    pub dry_run: bool,
}

/// The options that `deploy`'s arguments from `i` on select, starting from
/// those already read; `None` for an unknown flag or a missing value.
pub open spec fn deploy_scan(
    args: Seq<Seq<char>>,
    i: int,
    config: Option<Seq<char>>,
    binary: Option<Seq<char>>,
    dry_run: bool,
) -> Option<(Option<Seq<char>>, Option<Seq<char>>, bool)>
    decreases args.len() - i,
{
    if i < 0 || i >= args.len() {
        Some((config, binary, dry_run))
    } else if args[i] == "--config"@ {
        if i + 1 < args.len() {
            deploy_scan(args, i + 2, Some(args[i + 1]), binary, dry_run)
        } else {
            None
        }
    } else if args[i] == "--binary"@ {
        if i + 1 < args.len() {
            deploy_scan(args, i + 2, config, Some(args[i + 1]), dry_run)
        } else {
            None
        }
    } else if args[i] == "--dry-run"@ {
        deploy_scan(args, i + 1, config, binary, true)
    } else {
        None
    }
}

/// Reads `deploy [--config PATH] [--binary PATH] [--dry-run]`.
pub fn deploy_options(arguments: &Vec<String>) -> (options: Result<DeployOptions, String>)
    ensures
        match deploy_scan(args_view(arguments@), 0, None, None, false) {
            Some((config, binary, dry_run)) => options matches Ok(o) && o.dry_run == dry_run
                && (match o.config_path {
                Some(p) => config == Some(p@),
                None => config is None,
            }) && (match o.binary {
                Some(p) => binary == Some(p@),
                None => binary is None,
            }),
            None => options is Err,
        },
{
    let mut config_path: Option<String> = None;
    let mut binary: Option<String> = None;
    let mut dry_run = false;
    let n = arguments.len();
    let mut i: usize = 0;
    while i < n
        invariant
            i <= n + 1,
            n == arguments@.len(),
            deploy_scan(args_view(arguments@), 0, None, None, false) == deploy_scan(
                args_view(arguments@),
                i as int,
                match config_path {
                    Some(p) => Some(p@),
                    None => None,
                },
                match binary {
                    Some(p) => Some(p@),
                    None => None,
                },
                dry_run,
            ),
        decreases n + 1 - i,
    {
        let argument = arguments[i].as_str();
        assert(args_view(arguments@)[i as int] == argument@);
        if str_equal(argument, "--config") {
            if i + 1 >= n {
                return Err(String::from_str("--config requires a value"));
            }
            assert(args_view(arguments@)[i + 1] == arguments@[i + 1]@);
            config_path = Some(arguments[i + 1].clone());
            i = i + 2;
        } else if str_equal(argument, "--binary") {
            if i + 1 >= n {
                return Err(String::from_str("--binary requires a value"));
            }
            assert(args_view(arguments@)[i + 1] == arguments@[i + 1]@);
            binary = Some(arguments[i + 1].clone());
            i = i + 2;
        } else if str_equal(argument, "--dry-run") {
            dry_run = true;
            i = i + 1;
        } else {
            let mut message = String::from_str("unknown deploy option ");
            message.append(argument);
            return Err(message);
        }
    }
    Ok(DeployOptions { config_path, binary, dry_run })
}

/// Options of `uninstall`.
pub struct UninstallOptions {
    pub config_path: Option<String>,
    pub purge: bool,
    pub confirmed: bool,
}

/// The options that `uninstall`'s arguments from `i` on select.
pub open spec fn uninstall_scan(
    args: Seq<Seq<char>>,
    i: int,
    config: Option<Seq<char>>,
    purge: bool,
    confirmed: bool,
) -> Option<(Option<Seq<char>>, bool, bool)>
    decreases args.len() - i,
{
    if i < 0 || i >= args.len() {
        Some((config, purge, confirmed))
    } else if args[i] == "--config"@ {
        if i + 1 < args.len() {
            uninstall_scan(args, i + 2, Some(args[i + 1]), purge, confirmed)
        } else {
            None
        }
    } else if args[i] == "--purge"@ {
        uninstall_scan(args, i + 1, config, true, confirmed)
    } else if args[i] == "--yes"@ {
        uninstall_scan(args, i + 1, config, purge, true)
    } else {
        None
    }
}

/// Reads `uninstall [--config PATH] [--purge] [--yes]`.
pub fn uninstall_options(arguments: &Vec<String>) -> (options: Result<UninstallOptions, String>)
    ensures
        match uninstall_scan(args_view(arguments@), 0, None, false, false) {
            Some((config, purge, confirmed)) => options matches Ok(o) && o.purge == purge
                && o.confirmed == confirmed && (match o.config_path {
                Some(p) => config == Some(p@),
                None => config is None,
            }),
            None => options is Err,
        },
{
    let mut config_path: Option<String> = None;
    let mut purge = false;
    let mut confirmed = false;
    let n = arguments.len();
    let mut i: usize = 0;
    while i < n
        invariant
            i <= n + 1,
            n == arguments@.len(),
            uninstall_scan(args_view(arguments@), 0, None, false, false) == uninstall_scan(
                args_view(arguments@),
                i as int,
                match config_path {
                    Some(p) => Some(p@),
                    None => None,
                },
                purge,
                confirmed,
            ),
        decreases n + 1 - i,
    {
        let argument = arguments[i].as_str();
        assert(args_view(arguments@)[i as int] == argument@);
        if str_equal(argument, "--config") {
            if i + 1 >= n {
                return Err(String::from_str("--config requires a value"));
            }
            assert(args_view(arguments@)[i + 1] == arguments@[i + 1]@);
            config_path = Some(arguments[i + 1].clone());
            i = i + 2;
        } else if str_equal(argument, "--purge") {
            purge = true;
            i = i + 1;
        } else if str_equal(argument, "--yes") {
            confirmed = true;
            i = i + 1;
        } else {
            let mut message = String::from_str("unknown uninstall option ");
            message.append(argument);
            return Err(message);
        }
    }
    Ok(UninstallOptions { config_path, purge, confirmed })
}

/// Options of `acme configure`.
pub struct AcmeConfiguration {
    pub config_path: Option<String>,
    pub email: String,
    pub domains: Vec<String>,
    pub dns_provider: String,
    pub staging: bool,
}

/// What `acme configure`'s arguments from `i` on select.
pub struct AcmeScan {
    pub config: Option<Seq<char>>,
    pub email: Option<Seq<char>>,
    pub domains: Seq<Seq<char>>,
    pub dns: Option<Seq<char>>,
    pub staging: bool,
}

/// The options that `acme configure`'s arguments from `i` on select.
pub open spec fn acme_scan(args: Seq<Seq<char>>, i: int, acc: AcmeScan) -> Option<AcmeScan>
    decreases args.len() - i,
{
    if i < 0 || i >= args.len() {
        Some(acc)
    } else if args[i] == "--email"@ {
        if i + 1 < args.len() {
            acme_scan(args, i + 2, AcmeScan { email: Some(args[i + 1]), ..acc })
        } else {
            None
        }
    } else if args[i] == "--domain"@ {
        if i + 1 < args.len() {
            acme_scan(args, i + 2, AcmeScan { domains: acc.domains.push(args[i + 1]), ..acc })
        } else {
            None
        }
    } else if args[i] == "--dns"@ {
        if i + 1 < args.len() {
            acme_scan(args, i + 2, AcmeScan { dns: Some(args[i + 1]), ..acc })
        } else {
            None
        }
    } else if args[i] == "--config"@ {
        if i + 1 < args.len() {
            acme_scan(args, i + 2, AcmeScan { config: Some(args[i + 1]), ..acc })
        } else {
            None
        }
    } else if args[i] == "--staging"@ {
        acme_scan(args, i + 1, AcmeScan { staging: true, ..acc })
    } else {
        None
    }
}

/// Nothing read yet.
pub open spec fn acme_start() -> AcmeScan {
    AcmeScan { config: None, email: None, domains: Seq::empty(), dns: None, staging: false }
}

/// Reads `acme configure --email EMAIL --dns PROVIDER --domain NAME...
/// [--staging] [--config PATH]`, in any order; an email and a DNS provider
/// are required.
pub fn acme_configuration(arguments: &Vec<String>) -> (configured: Result<AcmeConfiguration, String>)
    ensures
        match acme_scan(args_view(arguments@), 0, acme_start()) {
            Some(s) => if s.email is Some && s.dns is Some {
                configured matches Ok(c) && Some(c.email@) == s.email && Some(c.dns_provider@)
                    == s.dns && c.staging == s.staging && args_view(c.domains@) == s.domains && (
                match c.config_path {
                    Some(p) => s.config == Some(p@),
                    None => s.config is None,
                })
            } else {
                configured is Err
            },
            None => configured is Err,
        },
{
    let mut config_path: Option<String> = None;
    let mut email: Option<String> = None;
    let mut domains: Vec<String> = Vec::new();
    let mut dns_provider: Option<String> = None;
    let mut staging = false;
    let n = arguments.len();
    let mut i: usize = 0;
    let ghost args = args_view(arguments@);
    assert(args_view(domains@) =~= Seq::<Seq<char>>::empty());
    while i < n
        invariant
            i <= n + 1,
            n == arguments@.len(),
            args == args_view(arguments@),
            acme_scan(args, 0, acme_start()) == acme_scan(
                args,
                i as int,
                AcmeScan {
                    config: match config_path {
                        Some(p) => Some(p@),
                        None => None,
                    },
                    email: match email {
                        Some(p) => Some(p@),
                        None => None,
                    },
                    domains: args_view(domains@),
                    dns: match dns_provider {
                        Some(p) => Some(p@),
                        None => None,
                    },
                    staging,
                },
            ),
        decreases n + 1 - i,
    {
        let argument = arguments[i].as_str();
        assert(args[i as int] == argument@);
        if str_equal(argument, "--email") || str_equal(argument, "--domain") || str_equal(
            argument,
            "--dns",
        ) || str_equal(argument, "--config") {
            if i + 1 >= n {
                let mut message = String::from_str(argument);
                message.append(" requires a value");
                return Err(message);
            }
            assert(args[i + 1] == arguments@[i + 1]@);
            let value = arguments[i + 1].clone();
            if str_equal(argument, "--email") {
                email = Some(value);
            } else if str_equal(argument, "--domain") {
                let ghost before = domains@;
                domains.push(value);
                assert(args_view(domains@) =~= args_view(before).push(value@));
            } else if str_equal(argument, "--dns") {
                dns_provider = Some(value);
            } else {
                config_path = Some(value);
            }
            i = i + 2;
        } else if str_equal(argument, "--staging") {
            staging = true;
            i = i + 1;
        } else {
            let mut message = String::from_str("unknown ACME option ");
            message.append(argument);
            return Err(message);
        }
    }
    let email = match email {
        Some(e) => e,
        None => return Err(String::from_str("ACME requires --email EMAIL")),
    };
    let dns_provider = match dns_provider {
        Some(d) => d,
        None => return Err(String::from_str("ACME requires --dns PROVIDER")),
    };
    Ok(AcmeConfiguration { config_path, email, domains, dns_provider, staging })
}

/// Options of `status`, `drain` and `shutdown`.
pub struct ControlOptions {
    pub config_path: Option<String>,
    pub json: bool,
}

/// The options that a control command's arguments from `i` on select.
pub open spec fn control_scan(args: Seq<Seq<char>>, i: int, config: Option<Seq<char>>, json: bool) -> Option<
    (Option<Seq<char>>, bool),
>
    decreases args.len() - i,
{
    if i < 0 || i >= args.len() {
        Some((config, json))
    } else if args[i] == "--config"@ {
        if i + 1 < args.len() {
            control_scan(args, i + 2, Some(args[i + 1]), json)
        } else {
            None
        }
    } else if args[i] == "--format"@ {
        if i + 1 < args.len() && args[i + 1] == "text"@ {
            control_scan(args, i + 2, config, false)
        } else if i + 1 < args.len() && args[i + 1] == "json"@ {
            control_scan(args, i + 2, config, true)
        } else {
            None
        }
    } else {
        None
    }
}

/// Reads `[--format text|json] [--config PATH]`.
pub fn control_options(arguments: &Vec<String>) -> (options: Result<ControlOptions, String>)
    ensures
        match control_scan(args_view(arguments@), 0, None, false) {
            Some((config, json)) => options matches Ok(o) && o.json == json && (match o.config_path {
                Some(p) => config == Some(p@),
                None => config is None,
            }),
            None => options is Err,
        },
{
    let mut config_path: Option<String> = None;
    let mut json = false;
    let n = arguments.len();
    let mut i: usize = 0;
    while i < n
        invariant
            i <= n + 1,
            n == arguments@.len(),
            control_scan(args_view(arguments@), 0, None, false) == control_scan(
                args_view(arguments@),
                i as int,
                match config_path {
                    Some(p) => Some(p@),
                    None => None,
                },
                json,
            ),
        decreases n + 1 - i,
    {
        let argument = arguments[i].as_str();
        assert(args_view(arguments@)[i as int] == argument@);
        if str_equal(argument, "--config") {
            if i + 1 >= n {
                return Err(String::from_str("--config requires a value"));
            }
            assert(args_view(arguments@)[i + 1] == arguments@[i + 1]@);
            config_path = Some(arguments[i + 1].clone());
            i = i + 2;
        } else if str_equal(argument, "--format") {
            if i + 1 >= n {
                return Err(String::from_str("--format requires a value"));
            }
            let value = arguments[i + 1].as_str();
            assert(args_view(arguments@)[i + 1] == value@);
            if str_equal(value, "text") {
                json = false;
            } else if str_equal(value, "json") {
                json = true;
            } else {
                let mut message = String::from_str("unknown status format ");
                message.append(value);
                message.append("; expected text or json");
                return Err(message);
            }
            i = i + 2;
        } else {
            let mut message = String::from_str("unknown control option ");
            message.append(argument);
            return Err(message);
        }
    }
    Ok(ControlOptions { config_path, json })
}

/// How an enrollment reaches its client.
#[derive(Clone, Debug, PartialEq, Eq)]
pub enum IssueDelivery {
    Qr,
    File(String),
}

/// Options of `client issue`.
pub struct IssueOptions {
    pub config_path: Option<String>,
    pub client_name: String,
    pub relay_address: SocketAddress,
    pub server_name: String,
    pub custom_ca: bool,
    pub delivery: IssueDelivery,
}

/// What `client issue`'s arguments have selected so far; a delivery of
/// `Some(None)` is a QR code, `Some(Some(path))` a file.
pub struct IssueScan {
    pub config: Option<Seq<char>>,
    pub name: Option<Seq<char>>,
    pub relay: Option<SocketAddress>,
    pub server: Option<Seq<char>>,
    pub custom_ca: bool,
    pub delivery: Option<Option<Seq<char>>>,
}

/// The options that `client issue`'s arguments from `i` on select, where
/// `addresses[k]` is what argument `k` reads as when taken as a socket
/// address; `None` for an unknown flag, a missing or invalid value, or a
/// second delivery.
pub open spec fn issue_scan(args: Seq<Seq<char>>, addresses: Seq<Option<SocketAddress>>, i: int, acc: IssueScan) -> Option<
    IssueScan,
>
    decreases args.len() - i,
{
    if i < 0 || i >= args.len() {
        Some(acc)
    } else if args[i] == "--qr"@ {
        if acc.delivery is None {
            issue_scan(args, addresses, i + 1, IssueScan { delivery: Some(None), ..acc })
        } else {
            None
        }
    } else if i + 1 >= args.len() {
        None
    } else if args[i] == "--config"@ {
        issue_scan(args, addresses, i + 2, IssueScan { config: Some(args[i + 1]), ..acc })
    } else if args[i] == "--name"@ {
        issue_scan(args, addresses, i + 2, IssueScan { name: Some(args[i + 1]), ..acc })
    } else if args[i] == "--relay"@ {
        match addresses[i + 1] {
            Some(a) => if a.ip.spec_is_unspecified() {
                None
            } else {
                issue_scan(args, addresses, i + 2, IssueScan { relay: Some(a), ..acc })
            },
            None => None,
        }
    } else if args[i] == "--server-name"@ {
        issue_scan(args, addresses, i + 2, IssueScan { server: Some(args[i + 1]), ..acc })
    } else if args[i] == "--trust"@ {
        if args[i + 1] == "system"@ {
            issue_scan(args, addresses, i + 2, IssueScan { custom_ca: false, ..acc })
        } else if args[i + 1] == "custom-ca"@ {
            issue_scan(args, addresses, i + 2, IssueScan { custom_ca: true, ..acc })
        } else {
            None
        }
    } else if args[i] == "--output"@ {
        if acc.delivery is None {
            issue_scan(args, addresses, i + 2, IssueScan { delivery: Some(Some(args[i + 1])), ..acc })
        } else {
            None
        }
    } else {
        None
    }
}

/// Nothing selected yet.
pub open spec fn issue_start() -> IssueScan {
    IssueScan { config: None, name: None, relay: None, server: None, custom_ca: false, delivery: None }
}

struct IssueState {
    config: Option<String>,
    name: Option<String>,
    relay: Option<SocketAddress>,
    server: Option<String>,
    custom_ca: bool,
    delivery: Option<IssueDelivery>,
}

/// An optional text by its characters.
pub open spec fn text_view(t: Option<String>) -> Option<Seq<char>> {
    match t {
        Some(s) => Some(s@),
        None => None,
    }
}

spec fn issue_state_view(s: IssueState) -> IssueScan {
    IssueScan {
        config: text_view(s.config),
        name: text_view(s.name),
        relay: s.relay,
        server: text_view(s.server),
        custom_ca: s.custom_ca,
        delivery: match s.delivery {
            Some(IssueDelivery::Qr) => Some(None),
            Some(IssueDelivery::File(p)) => Some(Some(p@)),
            None => None,
        },
    }
}

/// Reads `client issue --name NAME --relay IP:PORT --server-name NAME
/// (--qr | --output PATH) [--trust system|custom-ca] [--config PATH]`,
/// given what each argument reads as when taken as a socket address.
#[verifier::loop_isolation(false)]
pub fn issue_options(arguments: &Vec<String>, addresses: &Vec<Option<SocketAddress>>) -> (options: Result<
    IssueOptions,
    String,
>)
    requires
        addresses@.len() == arguments@.len(),
    ensures
        match issue_scan(args_view(arguments@), addresses@, 0, issue_start()) {
            Some(s) => match (s.name, s.relay, s.server, s.delivery) {
                (Some(name), Some(relay), Some(server), Some(delivery)) => options matches Ok(o) && {
                    &&& text_view(o.config_path) == s.config
                    &&& o.client_name@ == name
                    &&& o.relay_address == relay
                    &&& o.server_name@ == server
                    &&& o.custom_ca == s.custom_ca
                    &&& match o.delivery {
                        IssueDelivery::Qr => delivery is None,
                        IssueDelivery::File(p) => delivery == Some(p@),
                    }
                },
                _ => options is Err,
            },
            None => options is Err,
        },
{
    let mut state = IssueState { config: None, name: None, relay: None, server: None, custom_ca: false, delivery: None };
    let n = arguments.len();
    let mut i: usize = 0;
    let ghost args = args_view(arguments@);
    while i < n
        invariant
            i <= n + 1,
            n == arguments@.len(),
            n == addresses@.len(),
            args == args_view(arguments@),
            issue_scan(args, addresses@, 0, issue_start()) == issue_scan(args, addresses@, i as int, issue_state_view(state)),
        decreases n + 1 - i,
    {
        let argument = arguments[i].as_str();
        assert(args[i as int] == argument@);
        if str_equal(argument, "--qr") {
            if state.delivery.is_some() {
                return Err(String::from_str("choose exactly one of --qr or --output PATH"));
            }
            state.delivery = Some(IssueDelivery::Qr);
            i = i + 1;
        } else if i + 1 >= n {
            let known = str_equal(argument, "--config") || str_equal(argument, "--name") || str_equal(argument, "--relay")
                || str_equal(argument, "--server-name") || str_equal(argument, "--trust") || str_equal(argument, "--output");
            if !known {
                let mut message = String::from_str("unknown client issue option ");
                message.append(argument);
                return Err(message);
            }
            if str_equal(argument, "--output") && state.delivery.is_some() {
                return Err(String::from_str("choose exactly one of --qr or --output PATH"));
            }
            let mut message = String::from_str(argument);
            message.append(" requires a value");
            return Err(message);
        } else {
            let value = &arguments[i + 1];
            assert(args[i + 1] == value@);
            if str_equal(argument, "--config") {
                state.config = Some(value.clone());
            } else if str_equal(argument, "--name") {
                state.name = Some(value.clone());
            } else if str_equal(argument, "--relay") {
                match addresses[i + 1] {
                    Some(a) => {
                        if a.ip.is_unspecified() {
                            return Err(String::from_str("relay must be client reachable, not an unspecified address"));
                        }
                        state.relay = Some(a);
                    },
                    None => return Err(String::from_str("relay must be an IP:PORT socket address")),
                }
            } else if str_equal(argument, "--server-name") {
                state.server = Some(value.clone());
            } else if str_equal(argument, "--trust") {
                if str_equal(value.as_str(), "system") {
                    state.custom_ca = false;
                } else if str_equal(value.as_str(), "custom-ca") {
                    state.custom_ca = true;
                } else {
                    let mut message = String::from_str("unknown trust mode ");
                    message.append(value.as_str());
                    message.append("; expected system or custom-ca");
                    return Err(message);
                }
            } else if str_equal(argument, "--output") {
                if state.delivery.is_some() {
                    return Err(String::from_str("choose exactly one of --qr or --output PATH"));
                }
                state.delivery = Some(IssueDelivery::File(value.clone()));
            } else {
                let mut message = String::from_str("unknown client issue option ");
                message.append(argument);
                return Err(message);
            }
            i = i + 2;
        }
    }
    let client_name = match state.name {
        Some(v) => v,
        None => return Err(String::from_str("client issue requires --name NAME")),
    };
    let relay_address = match state.relay {
        Some(v) => v,
        None => return Err(String::from_str("client issue requires --relay IP:PORT")),
    };
    let server_name = match state.server {
        Some(v) => v,
        None => return Err(String::from_str("client issue requires --server-name NAME")),
    };
    let delivery = match state.delivery {
        Some(v) => v,
        None => return Err(String::from_str("client issue requires --qr or --output PATH")),
    };
    Ok(IssueOptions { config_path: state.config, client_name, relay_address, server_name, custom_ca: state.custom_ca, delivery })
}

/// What a revocation selector stands for.
pub open spec fn selector_view(s: RevokeSelector) -> (Option<u64>, Option<Seq<char>>) {
    match s {
        RevokeSelector::Id(id) => (Some(id), None),
        RevokeSelector::Name(n) => (None, Some(n@)),
    }
}

/// The options that `client revoke`'s arguments from `i` on select: a
/// configuration path and one selector, by identifier or name.
pub open spec fn revoke_scan(
    args: Seq<Seq<char>>,
    i: int,
    config: Option<Seq<char>>,
    selector: Option<(Option<u64>, Option<Seq<char>>)>,
) -> Option<(Option<Seq<char>>, Option<(Option<u64>, Option<Seq<char>>)>)>
    decreases args.len() - i,
{
    if i < 0 || i >= args.len() {
        Some((config, selector))
    } else if args[i] == "--config"@ {
        if i + 1 < args.len() {
            revoke_scan(args, i + 2, Some(args[i + 1]), selector)
        } else {
            None
        }
    } else if args[i] == "--id"@ && selector is None {
        if i + 1 < args.len() {
            match unsigned_value(args[i + 1], u64::MAX as nat) {
                Some(v) => revoke_scan(args, i + 2, config, Some((Some(v as u64), None))),
                None => None,
            }
        } else {
            None
        }
    } else if args[i] == "--name"@ && selector is None {
        if i + 1 < args.len() {
            revoke_scan(args, i + 2, config, Some((None, Some(args[i + 1]))))
        } else {
            None
        }
    } else {
        None
    }
}

/// Options of `client revoke`.
pub struct RevokeOptions {
    pub config_path: Option<String>,
    pub selector: RevokeSelector,
}

/// Reads `client revoke (--id ID | --name NAME) [--config PATH]`.
#[verifier::loop_isolation(false)]
pub fn revoke_options(arguments: &Vec<String>) -> (options: Result<RevokeOptions, String>)
    ensures
        match revoke_scan(args_view(arguments@), 0, None, None) {
            Some((config, Some(selector))) => options matches Ok(o) && text_view(o.config_path) == config
                && selector_view(o.selector) == selector,
            _ => options is Err,
        },
{
    let mut config_path: Option<String> = None;
    let mut selector: Option<RevokeSelector> = None;
    let n = arguments.len();
    let mut i: usize = 0;
    let ghost args = args_view(arguments@);
    while i < n
        invariant
            i <= n + 1,
            n == arguments@.len(),
            args == args_view(arguments@),
            revoke_scan(args, 0, None, None) == revoke_scan(
                args,
                i as int,
                text_view(config_path),
                match selector {
                    Some(s) => Some(selector_view(s)),
                    None => None,
                },
            ),
        decreases n + 1 - i,
    {
        let argument = arguments[i].as_str();
        assert(args[i as int] == argument@);
        let is_config = str_equal(argument, "--config");
        let is_id = str_equal(argument, "--id");
        let is_name = str_equal(argument, "--name");
        if !is_config && (is_id || is_name) && selector.is_some() {
            return Err(String::from_str("choose exactly one of --id or --name"));
        }
        if !is_config && !is_id && !is_name {
            let mut message = String::from_str("unknown client revoke option ");
            message.append(argument);
            return Err(message);
        }
        if i + 1 >= n {
            let mut message = String::from_str(argument);
            message.append(" requires a value");
            return Err(message);
        }
        let value = &arguments[i + 1];
        assert(args[i + 1] == value@);
        if is_config {
            config_path = Some(value.clone());
        } else if is_id {
            match parse_unsigned(value.as_str(), u64::MAX) {
                Some(id) => {
                    selector = Some(RevokeSelector::Id(id));
                },
                None => return Err(String::from_str("--id must be an integer")),
            }
        } else {
            selector = Some(RevokeSelector::Name(value.clone()));
        }
        i = i + 2;
    }
    match selector {
        Some(s) => Ok(RevokeOptions { config_path, selector: s }),
        None => Err(String::from_str("client revoke requires --id ID or --name NAME")),
    }
}

} // verus!
