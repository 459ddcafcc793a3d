//! The rules of the desktop node: its command line, the configuration that it
//! runs with, and what it makes of a server that is starting.

use vstd::prelude::*;
use vstd::string::*;

use crate::text::{decimal_digit, decimal_text, law_decimal_digits_in_order, opt_text, push_decimal, same_text};

verus! {

/// How long to wait for a server name before giving up, in seconds.
pub const READY_TIMEOUT_SECS: u64 = 30;

/// How long to wait between two looks at a starting server, in milliseconds.
pub const READY_POLL_MILLIS: u64 = 100;

/// The log filter that is used where none is set.
pub const DEFAULT_LOG_FILTER: &'static str = "warn,neutrino_ble=info";

/// How many federation requests may be under way at once.
pub const OUTBOUND_CONCURRENCY: u32 = 8;

/// Why a port was refused.
#[derive(Clone, Copy, Debug, PartialEq, Eq, Structural)]
pub enum PortError {
    /// There is nothing to read.
    Empty,
    /// Some character is not a decimal digit.
    InvalidDigit,
    /// It is more than 65535.
    PosOverflow,
}

/// The message of a port error.
pub open spec fn port_error_text(error: PortError) -> Seq<char> {
    match error {
        PortError::Empty => "cannot parse integer from empty string"@,
        PortError::InvalidDigit => "invalid digit found in string"@,
        PortError::PosOverflow => "number too large to fit in target type"@,
    }
}

impl PortError {
    /// The message of the error.
    pub fn message(&self) -> (r: &'static str)
        ensures
            r@ == port_error_text(*self),
    {
        match self {
            PortError::Empty => "cannot parse integer from empty string",
            PortError::InvalidDigit => "invalid digit found in string",
            PortError::PosOverflow => "number too large to fit in target type",
        }
    }
}

/// The number that `value` becomes when one more character is read.
pub open spec fn port_step(value: nat, c: char) -> Result<nat, PortError> {
    if !('0' <= c <= '9') {
        Err(PortError::InvalidDigit)
    } else if 10 * value + (c as nat - '0' as nat) > u16::MAX {
        Err(PortError::PosOverflow)
    } else {
        Ok((10 * value + (c as nat - '0' as nat)) as nat)
    }
}

/// The number that a run of characters writes; the first fault decides.
pub open spec fn port_digits(digits: Seq<char>) -> Result<nat, PortError>
    decreases digits.len(),
{
    if digits.len() == 0 {
        Ok(0)
    } else {
        match port_digits(digits.drop_last()) {
            Ok(value) => port_step(value, digits.last()),
            Err(error) => Err(error),
        }
    }
}

/// The port that `text` writes: decimal digits, with a plus sign before them
/// or without.
pub open spec fn port_value(text: Seq<char>) -> Result<nat, PortError> {
    if text.len() == 0 {
        Err(PortError::Empty)
    } else if text[0] != '+' {
        port_digits(text)
    } else if text.len() == 1 {
        Err(PortError::InvalidDigit)
    } else {
        port_digits(text.skip(1))
    }
}

/// A fault is not mended by what comes after it.
proof fn lemma_first_fault(digits: Seq<char>, n: int)
    requires
        0 <= n <= digits.len(),
        port_digits(digits.take(n)) is Err,
    ensures
        port_digits(digits) == port_digits(digits.take(n)),
    decreases digits.len(),
{
    if n == digits.len() {
        assert(digits.take(n) =~= digits);
    } else {
        assert(digits.drop_last().take(n) =~= digits.take(n));
        lemma_first_fault(digits.drop_last(), n);
    }
}

/// Read a port.
pub fn parse_port(text: &str) -> (r: Result<u16, PortError>)
    ensures
        (match r {
            Ok(port) => port_value(text@) == Ok::<nat, PortError>(port as nat),
            Err(error) => port_value(text@) == Err::<nat, PortError>(error),
        }),
{
    let len: usize = text.unicode_len();
    if len == 0 {
        return Err(PortError::Empty);
    }
    let signed = text.get_char(0) == '+';
    if signed && len == 1 {
        return Err(PortError::InvalidDigit);
    }
    let start: usize = if signed {
        1
    } else {
        0
    };
    let ghost digits = text@.skip(start as int);
    assert(!signed ==> digits =~= text@);
    let mut value: u32 = 0;
    let mut i: usize = start;
    while i < len
        invariant
            len == text@.len(),
            start <= i <= len,
            digits == text@.skip(start as int),
            port_value(text@) == port_digits(digits),
            port_digits(digits.take(i - start)) == Ok::<nat, PortError>(value as nat),
            value <= u16::MAX,
        decreases len - i,
    {
        let c = text.get_char(i);
        proof {
            assert(digits.take(i + 1 - start).drop_last() =~= digits.take(i - start));
            assert(digits.take(i + 1 - start).last() == c);
        }
        if !('0' <= c && c <= '9') {
            proof {
                lemma_first_fault(digits, i + 1 - start);
            }
            return Err(PortError::InvalidDigit);
        }
        value = 10 * value + (c as u32 - '0' as u32);
        if value > u16::MAX as u32 {
            proof {
                lemma_first_fault(digits, i + 1 - start);
            }
            return Err(PortError::PosOverflow);
        }
        i += 1;
    }
    assert(digits.take(len - start) =~= digits);
    Ok(value as u16)
}

/// What the command line says.
#[derive(Clone, Debug, PartialEq, Eq)]
pub struct Args {
    /// Address of the client-server API.
    pub bind: String,
    /// Storage directory.
    pub storage: String,
    /// Localpart of the node's user.
    pub localpart: String,
    /// Server name; none derives it from the node identity, which is what a
    /// mesh node wants.
    pub server_name: Option<String>,
    /// Public federation port of the sidecar that routes federation through
    /// the mesh.
    pub fed_port: u16,
}

/// What the command line says, as text.
#[verifier::ext_equal]
pub struct ArgsView {
    pub bind: Seq<char>,
    pub storage: Seq<char>,
    pub localpart: Seq<char>,
    pub server_name: Option<Seq<char>>,
    pub fed_port: nat,
}

impl View for Args {
    type V = ArgsView;

    open spec fn view(&self) -> ArgsView {
        ArgsView {
            bind: self.bind@,
            storage: self.storage@,
            localpart: self.localpart@,
            server_name: opt_text(self.server_name),
            fed_port: self.fed_port as nat,
        }
    }
}

/// The arguments as text.
pub open spec fn words(argv: Seq<String>) -> Seq<Seq<char>> {
    Seq::new(argv.len(), |i: int| argv[i]@)
}

/// Where `name` stands first at `from` or after it; past the end if nowhere.
pub open spec fn first_index(argv: Seq<Seq<char>>, name: Seq<char>, from: int) -> int
    decreases argv.len() - from,
{
    if from >= argv.len() || argv[from] == name {
        from
    } else {
        first_index(argv, name, from + 1)
    }
}

/// The value of the flag `name`: the word after its first occurrence.
pub open spec fn flag_value(argv: Seq<Seq<char>>, name: Seq<char>) -> Option<Seq<char>> {
    let i = first_index(argv, name, 0);
    if i + 1 < argv.len() {
        Some(argv[i + 1])
    } else {
        None
    }
}

/// The usage message.
pub open spec fn usage_text(program: Seq<char>) -> Seq<char> {
    "usage: "@ + program
        + " --bind <addr:port> --storage <dir> --fed-port <port> \\\n            [--localpart n] [--server-name <name>]"@
}

/// Whether the command line asks for help.
pub open spec fn asks_for_help(argv: Seq<Seq<char>>) -> bool {
    argv.contains("-h"@) || argv.contains("--help"@)
}

/// What a command line comes to: what it says, or the message that it is
/// refused with.
pub open spec fn command_line(argv: Seq<Seq<char>>) -> Result<ArgsView, Seq<char>> {
    if asks_for_help(argv) {
        Err(
            usage_text(
                if argv.len() > 0 {
                    argv[0]
                } else {
                    "neutrino-lan"@
                },
            ),
        )
    } else {
        match (flag_value(argv, "--bind"@), flag_value(argv, "--storage"@), flag_value(argv, "--fed-port"@)) {
            (None, _, _) => Err("missing --bind <addr:port>"@),
            (_, None, _) => Err("missing --storage <dir>"@),
            (_, _, None) => Err("missing --fed-port <port> (without it federation never uses the mesh)"@),
            (Some(bind), Some(storage), Some(port)) => match port_value(port) {
                Err(error) => Err("--fed-port: "@ + port_error_text(error)),
                Ok(fed_port) => Ok(
                    ArgsView {
                        bind,
                        storage,
                        localpart: match flag_value(argv, "--localpart"@) {
                            Some(localpart) => localpart,
                            None => "n"@,
                        },
                        server_name: flag_value(argv, "--server-name"@),
                        fed_port,
                    },
                ),
            },
        }
    }
}

/// The value of the flag `name`.
fn get(argv: &[String], name: &str) -> (r: Option<String>)
    ensures
        opt_text(r) == flag_value(words(argv@), name@),
{
    let mut i: usize = 0;
    while i < argv.len()
        invariant
            i <= argv@.len(),
            first_index(words(argv@), name@, 0) == first_index(words(argv@), name@, i as int),
        decreases argv@.len() - i,
    {
        if same_text(argv[i].as_str(), name) {
            if i + 1 < argv.len() {
                return Some(argv[i + 1].clone());
            }
            return None;
        }
        i += 1;
    }
    None
}

/// Whether some argument is `name`.
fn has(argv: &[String], name: &str) -> (r: bool)
    ensures
        r == words(argv@).contains(name@),
{
    let mut i: usize = 0;
    while i < argv.len()
        invariant
            i <= argv@.len(),
            forall|j: int| 0 <= j < i ==> #[trigger] words(argv@)[j] != name@,
        decreases argv@.len() - i,
    {
        if same_text(argv[i].as_str(), name) {
            assert(words(argv@)[i as int] == name@);
            return true;
        }
        i += 1;
    }
    false
}

/// Read the command line.
pub fn parse_args(argv: &[String]) -> (r: Result<Args, String>)
    ensures
        (match r {
            Ok(args) => command_line(words(argv@)) == Ok::<ArgsView, Seq<char>>(args@),
            Err(message) => command_line(words(argv@)) == Err::<ArgsView, Seq<char>>(message@),
        }),
{
    if has(argv, "-h") || has(argv, "--help") {
        let mut usage = String::new();
        usage.append("usage: ");
        if argv.len() > 0 {
            usage.append(argv[0].as_str());
        } else {
            usage.append("neutrino-lan");
        }
        usage.append(
            " --bind <addr:port> --storage <dir> --fed-port <port> \\\n            [--localpart n] [--server-name <name>]",
        );
        assert(command_line(words(argv@)) is Err && command_line(words(argv@))->Err_0 =~= usage@);
        return Err(usage);
    }
    let Some(bind) = get(argv, "--bind") else {
        return Err("missing --bind <addr:port>".to_string());
    };
    let Some(storage) = get(argv, "--storage") else {
        return Err("missing --storage <dir>".to_string());
    };
    let Some(port) = get(argv, "--fed-port") else {
        return Err("missing --fed-port <port> (without it federation never uses the mesh)".to_string());
    };
    let fed_port: u16 = match parse_port(port.as_str()) {
        Ok(fed_port) => fed_port,
        Err(error) => {
            let mut message = String::new();
            message.append("--fed-port: ");
            message.append(error.message());
            assert(command_line(words(argv@)) is Err && command_line(words(argv@))->Err_0 =~= message@);
            return Err(message);
        },
    };
    let localpart = match get(argv, "--localpart") {
        Some(localpart) => localpart,
        None => "n".to_string(),
    };
    let server_name = get(argv, "--server-name");
    Ok(Args { bind, storage, localpart, server_name, fed_port })
}

/// The configuration of an embedded node.
#[derive(Clone, Debug, PartialEq, Eq)]
pub struct NodeConfig {
    /// Address of the client-server API.
    pub bind_addr: String,
    /// Localpart of the node's user.
    pub localpart: String,
    /// Server name; none derives it from the node identity.
    pub server_name: Option<String>,
    /// Storage directory.
    pub storage_dir: String,
    /// How many federation requests may be under way at once.
    pub outbound_concurrency: u32,
    /// Whether events go without hashes. Such a node derives other event ids
    /// than every other server, and cannot federate outward.
    pub trusted_network: bool,
    /// Federation port of the sidecar. Without it the node federates over
    /// plain HTTP, to a name that nothing resolves.
    pub lb_federation_port: Option<u16>,
    /// Directory for logs.
    pub log_dir: Option<String>,
    /// Whether deliveries are acknowledged.
    pub delivery_receipts: bool,
}

/// The configuration that the desktop node runs with: always signed, always
/// routed through the mesh, always with receipts.
pub fn node_config(args: &Args) -> (r: NodeConfig)
    ensures
        r.bind_addr@ == args.bind@,
        r.localpart@ == args.localpart@,
        opt_text(r.server_name) == opt_text(args.server_name),
        r.storage_dir@ == args.storage@,
        r.outbound_concurrency == OUTBOUND_CONCURRENCY,
        !r.trusted_network,
        r.lb_federation_port == Some(args.fed_port),
        r.log_dir is None,
        r.delivery_receipts,
{
    NodeConfig {
        bind_addr: args.bind.clone(),
        localpart: args.localpart.clone(),
        server_name: match &args.server_name {
            Some(name) => Some(name.clone()),
            None => None,
        },
        storage_dir: args.storage.clone(),
        outbound_concurrency: OUTBOUND_CONCURRENCY,
        trusted_network: false,
        lb_federation_port: Some(args.fed_port),
        log_dir: None,
        delivery_receipts: true,
    }
}

/// What one look at a starting server comes to.
#[derive(Clone, Debug, PartialEq, Eq)]
pub enum Readiness {
    /// It is ready.
    Ready {
        /// Its server name.
        name: String,
    },
    /// It will not become ready.
    Failed {
        /// What to tell the user.
        message: String,
    },
    /// Look again later.
    Wait,
}

/// The message for a server that refused to start.
pub open spec fn refusal_text(error: Seq<char>) -> Seq<char> {
    "neutrino refused to start: "@ + error
}

/// The message for a server that takes too long to start.
pub open spec fn timeout_text() -> Seq<char> {
    "neutrino did not report a server name within "@ + decimal_text(READY_TIMEOUT_SECS as nat) + "s"@
}

/// Decide on a starting server. A server name means that it is ready; failing
/// that, an error means that it refused to start, and a deadline that has
/// passed that it takes too long.
pub fn readiness(server_name: Option<String>, last_error: Option<String>, expired: bool) -> (r: Readiness)
    ensures
        (match (opt_text(server_name), opt_text(last_error)) {
            (Some(name), _) => r matches Readiness::Ready { name: ready } && ready@ == name,
            (None, Some(error)) => r matches Readiness::Failed { message } && message@ == refusal_text(error),
            (None, None) => if expired {
                r matches Readiness::Failed { message } && message@ == timeout_text()
            } else {
                r is Wait
            },
        }),
{
    if let Some(name) = server_name {
        return Readiness::Ready { name };
    }
    if let Some(error) = last_error {
        let mut message = String::new();
        message.append("neutrino refused to start: ");
        message.append(error.as_str());
        assert(message@ =~= refusal_text(error@));
        return Readiness::Failed { message };
    }
    if expired {
        let mut message = String::new();
        message.append("neutrino did not report a server name within ");
        push_decimal(&mut message, READY_TIMEOUT_SECS);
        message.append("s");
        assert(message@ =~= timeout_text());
        return Readiness::Failed { message };
    }
    Readiness::Wait
}

/// The message for a storage directory that cannot be made.
pub fn storage_failure(storage: &str, cause: &str) -> (r: String)
    ensures
        r@ == "cannot create storage dir "@ + storage@ + ": "@ + cause@,
{
    let mut message = String::new();
    message.append("cannot create storage dir ");
    message.append(storage);
    message.append(": ");
    message.append(cause);
    assert(message@ =~= "cannot create storage dir "@ + storage@ + ": "@ + cause@);
    message
}

/// What a running node says about itself.
pub fn banner(args: &Args) -> (r: String)
    ensures
        r@ == "neutrino-lan cs-api "@ + args.bind@ + " federation :"@ + decimal_text(args.fed_port as nat) + " (storage "@
            + args.storage@ + ")"@,
{
    let mut text = String::new();
    text.append("neutrino-lan cs-api ");
    text.append(args.bind.as_str());
    text.append(" federation :");
    push_decimal(&mut text, args.fed_port as u64);
    text.append(" (storage ");
    text.append(args.storage.as_str());
    text.append(")");
    assert(text@ =~= "neutrino-lan cs-api "@ + args.bind@ + " federation :"@ + decimal_text(args.fed_port as nat)
        + " (storage "@ + args.storage@ + ")"@);
    text
}

/// Decimal digits are read as the number that they write.
proof fn lemma_port_reads_decimal(n: nat)
    requires
        n <= u16::MAX,
    ensures
        port_digits(decimal_text(n)) == Ok::<nat, PortError>(n),
        decimal_text(n).len() > 0,
        '0' <= decimal_text(n)[0] <= '9',
    decreases n,
{
    let text = decimal_text(n);
    if n < 10 {
        assert(text.drop_last() =~= Seq::empty());
        assert(text.last() == decimal_digit(n as int));
        reveal_with_fuel(port_digits, 2);
    } else {
        lemma_port_reads_decimal(n / 10);
        assert(text.drop_last() =~= decimal_text(n / 10));
        assert(text.last() == decimal_digit((n % 10) as int));
    }
}

/// Every port is read from its decimal rendering, with a plus sign before it
/// or without.
pub proof fn law_every_port_can_be_given(port: u16)
    ensures
        port_value(decimal_text(port as nat)) == Ok::<nat, PortError>(port as nat),
        port_value(seq!['+'] + decimal_text(port as nat)) == Ok::<nat, PortError>(port as nat),
{
    lemma_port_reads_decimal(port as nat);
    let text = decimal_text(port as nat);
    assert((seq!['+'] + text).skip(1) =~= text);
}

/// No text is read as a number that is not a port.
pub proof fn law_only_ports_are_read(text: Seq<char>)
    ensures
        port_value(text) matches Ok(port) ==> port <= u16::MAX,
{
    lemma_port_bound(text);
    if text.len() > 0 {
        lemma_port_bound(text.skip(1));
    }
}

/// Digits are never read as more than the largest port.
proof fn lemma_port_bound(digits: Seq<char>)
    ensures
        port_digits(digits) matches Ok(port) ==> port <= u16::MAX,
    decreases digits.len(),
{
    if digits.len() > 0 {
        lemma_port_bound(digits.drop_last());
    }
}

/// A node that starts has been told where its API, its storage and its
/// federation port are; the localpart and the server name it may do without.
pub proof fn law_started_node_is_told_its_places(argv: Seq<Seq<char>>)
    ensures
        command_line(argv) matches Ok(args) ==> {
            &&& !asks_for_help(argv)
            &&& flag_value(argv, "--bind"@) == Some(args.bind)
            &&& flag_value(argv, "--storage"@) == Some(args.storage)
            &&& flag_value(argv, "--fed-port"@) is Some
            &&& port_value(flag_value(argv, "--fed-port"@)->0) == Ok::<nat, PortError>(args.fed_port)
        },
{
}

/// Words after a flag's value do not change the value.
pub proof fn law_first_occurrence_counts(argv: Seq<Seq<char>>, name: Seq<char>, more: Seq<Seq<char>>)
    requires
        flag_value(argv, name) is Some,
    ensures
        flag_value(argv + more, name) == flag_value(argv, name),
{
    lemma_first_index_stays(argv, name, 0, more);
}

/// What comes after the end does not change where a word stands first.
proof fn lemma_first_index_stays(argv: Seq<Seq<char>>, name: Seq<char>, from: int, more: Seq<Seq<char>>)
    requires
        0 <= from,
        first_index(argv, name, from) < argv.len(),
    ensures
        first_index(argv + more, name, from) == first_index(argv, name, from),
        from <= first_index(argv, name, from),
    decreases argv.len() - from,
{
    if from < argv.len() {
        assert((argv + more)[from] == argv[from]);
        if argv[from] != name {
            lemma_first_index_stays(argv, name, from + 1, more);
        }
    }
}

/// Whether a text holds decimal digits alone.
pub open spec fn all_digits(text: Seq<char>) -> bool {
    forall|i: int| 0 <= i < text.len() ==> '0' <= #[trigger] text[i] <= '9'
}

/// The number that decimal digits write, however large.
pub open spec fn number_of(digits: Seq<char>) -> nat
    decreases digits.len(),
{
    if digits.len() == 0 {
        0
    } else {
        10 * number_of(digits.drop_last()) + (digits.last() as nat - '0' as nat) as nat
    }
}

/// More digits do not write a smaller number.
proof fn lemma_number_grows(digits: Seq<char>, n: int)
    requires
        0 <= n <= digits.len(),
    ensures
        number_of(digits.take(n)) <= number_of(digits),
    decreases digits.len(),
{
    if n == digits.len() {
        assert(digits.take(n) =~= digits);
    } else {
        assert(digits.drop_last().take(n) =~= digits.take(n));
        lemma_number_grows(digits.drop_last(), n);
    }
}

/// Whether the character at `k` is no digit, and those before it write a port.
pub open spec fn no_digit_at(text: Seq<char>, k: int) -> bool {
    &&& 0 <= k < text.len()
    &&& !('0' <= text[k] <= '9')
    &&& all_digits(text.take(k))
    &&& number_of(text.take(k)) <= 65_535
}

/// Whether the characters up to the one at `k` are digits that write more than
/// a port.
pub open spec fn too_large_at(text: Seq<char>, k: int) -> bool {
    &&& 0 <= k < text.len()
    &&& all_digits(text.take(k + 1))
    &&& number_of(text.take(k + 1)) > 65_535
}

/// What was read says what the text is like.
proof fn lemma_what_was_read(text: Seq<char>)
    ensures
        (match port_digits(text) {
            Ok(value) => all_digits(text) && number_of(text) == value && value <= 65_535,
            Err(PortError::InvalidDigit) => exists|k: int| no_digit_at(text, k),
            Err(PortError::PosOverflow) => exists|k: int| too_large_at(text, k),
            Err(PortError::Empty) => false,
        }),
    decreases text.len(),
{
    if text.len() > 0 {
        let rest = text.drop_last();
        let last = text.len() - 1;
        lemma_what_was_read(rest);
        assert(text.take(last) =~= rest);
        assert(text.take(last + 1) =~= text);
        match port_digits(rest) {
            Ok(value) => {
                if '0' <= text[last] <= '9' {
                    assert forall|i: int| 0 <= i < text.len() implies '0' <= #[trigger] text[i] <= '9' by {
                        if i < last {
                            assert('0' <= rest[i] <= '9');
                        }
                    }
                    if port_digits(text) is Err {
                        assert(too_large_at(text, last));
                    }
                } else {
                    assert(no_digit_at(text, last));
                }
            },
            Err(PortError::InvalidDigit) => {
                let k = choose|k: int| no_digit_at(rest, k);
                assert(text.take(k) =~= rest.take(k));
                assert(no_digit_at(text, k));
            },
            Err(PortError::PosOverflow) => {
                let k = choose|k: int| too_large_at(rest, k);
                assert(text.take(k + 1) =~= rest.take(k + 1));
                assert(too_large_at(text, k));
            },
            Err(PortError::Empty) => {},
        }
    }
}

/// The three things that a text can be like exclude each other.
proof fn lemma_faults_exclude(text: Seq<char>, k: int, i: int)
    ensures
        !(no_digit_at(text, k) && all_digits(text)),
        !(too_large_at(text, i) && number_of(text) <= 65_535),
        !(no_digit_at(text, k) && too_large_at(text, i)),
{
    if too_large_at(text, i) {
        lemma_number_grows(text, i + 1);
        if no_digit_at(text, k) {
            if k <= i {
                assert(text.take(i + 1)[k] == text[k]);
            } else {
                assert(text.take(k).take(i + 1) =~= text.take(i + 1));
                lemma_number_grows(text.take(k), i + 1);
            }
        }
    }
}

/// Digits are read as the number that they write if that is a port. Otherwise
/// the first character decides at which the text ceases to write one: because
/// it is no digit, or because the number has become too large.
pub proof fn law_digits_are_read_as_their_number(text: Seq<char>, n: nat)
    ensures
        port_digits(text) == Ok::<nat, PortError>(n) <==> all_digits(text) && number_of(text) == n && n <= 65_535,
        port_digits(text) == Err::<nat, PortError>(PortError::InvalidDigit) <==> exists|k: int| no_digit_at(text, k),
        port_digits(text) == Err::<nat, PortError>(PortError::PosOverflow) <==> exists|k: int| too_large_at(text, k),
{
    lemma_what_was_read(text);
    assert forall|k: int, i: int| #![trigger no_digit_at(text, k), too_large_at(text, i)] !(no_digit_at(text, k) && too_large_at(text, i)) by {
        lemma_faults_exclude(text, k, i);
    }
    assert forall|k: int| #[trigger] no_digit_at(text, k) implies !all_digits(text) by {
        lemma_faults_exclude(text, k, 0);
    }
    assert forall|i: int| #[trigger] too_large_at(text, i) implies number_of(text) > 65_535 by {
        lemma_faults_exclude(text, 0, i);
    }
}

/// Digits are never refused for being none.
proof fn lemma_never_empty(digits: Seq<char>)
    ensures
        port_digits(digits) != Err::<nat, PortError>(PortError::Empty),
    decreases digits.len(),
{
    if digits.len() > 0 {
        lemma_never_empty(digits.drop_last());
    }
}

/// A text is read as a port by its digits, after one plus sign or none; nothing
/// and a lone plus sign are refused.
pub proof fn law_sign_of_a_port(text: Seq<char>)
    ensures
        text.len() == 0 <==> port_value(text) == Err::<nat, PortError>(PortError::Empty),
        text == seq!['+'] ==> port_value(text) == Err::<nat, PortError>(PortError::InvalidDigit),
        text.len() > 0 && text[0] != '+' ==> port_value(text) == port_digits(text),
        text.len() > 0 ==> port_value(seq!['+'] + text) == port_digits(text),
{
    lemma_never_empty(text);
    if text.len() > 0 {
        lemma_never_empty(text.skip(1));
        assert((seq!['+'] + text).skip(1) =~= text);
    }
}

/// Whether `name` stands at `i`, and not before it.
pub open spec fn first_at(argv: Seq<Seq<char>>, name: Seq<char>, i: int) -> bool {
    &&& 0 <= i < argv.len()
    &&& argv[i] == name
    &&& forall|j: int| 0 <= j < i ==> #[trigger] argv[j] != name
}

/// A flag has the word after its first occurrence for its value, and none where
/// it does not occur or nothing comes after it.
pub proof fn law_flag_has_the_next_word(argv: Seq<Seq<char>>, name: Seq<char>, value: Seq<char>)
    ensures
        flag_value(argv, name) == Some(value) <==> exists|i: int| #[trigger]
            first_at(argv, name, i) && i + 1 < argv.len() && argv[i + 1] == value,
{
    lemma_first_index(argv, name, 0);
    let k = first_index(argv, name, 0);
    if k < argv.len() {
        assert(first_at(argv, name, k));
    }
    if exists|i: int| #[trigger] first_at(argv, name, i) && i + 1 < argv.len() && argv[i + 1] == value {
        let i = choose|i: int| #[trigger] first_at(argv, name, i) && i + 1 < argv.len() && argv[i + 1] == value;
        if i < k {
            assert(argv[i] != name);
        } else if k < i {
            assert(argv[k] != name);
        }
    }
}

/// Where a word stands first.
proof fn lemma_first_index(argv: Seq<Seq<char>>, name: Seq<char>, from: int)
    requires
        0 <= from <= argv.len(),
    ensures
        from <= first_index(argv, name, from) <= argv.len(),
        first_index(argv, name, from) < argv.len() ==> argv[first_index(argv, name, from)] == name,
        forall|j: int| from <= j < first_index(argv, name, from) ==> #[trigger] argv[j] != name,
    decreases argv.len() - from,
{
    if from < argv.len() && argv[from] != name {
        lemma_first_index(argv, name, from + 1);
    }
}

/// A command line that does not ask for help and gives the three places it has
/// to give is taken as it says.
pub proof fn law_command_line_is_taken_as_it_says(argv: Seq<Seq<char>>, args: ArgsView)
    ensures
        command_line(argv) == Ok::<ArgsView, Seq<char>>(args) <==> {
            &&& !argv.contains("-h"@)
            &&& !argv.contains("--help"@)
            &&& flag_value(argv, "--bind"@) == Some(args.bind)
            &&& flag_value(argv, "--storage"@) == Some(args.storage)
            &&& flag_value(argv, "--fed-port"@) matches Some(port) && port_value(port) == Ok::<nat, PortError>(args.fed_port)
            &&& flag_value(argv, "--server-name"@) == args.server_name
            &&& flag_value(argv, "--localpart"@) == Some(args.localpart) || (flag_value(argv, "--localpart"@) is None
                && args.localpart == "n"@)
        },
{
}

/// A command line that is refused is told why: help first, and then the first
/// of the three places that is missing, and then what is wrong with the port.
pub proof fn law_command_line_is_refused_with_the_reason(argv: Seq<Seq<char>>)
    ensures
        argv.contains("-h"@) || argv.contains("--help"@) ==> command_line(argv) == Err::<ArgsView, Seq<char>>(
            "usage: "@ + argv[0]
                + " --bind <addr:port> --storage <dir> --fed-port <port> \\\n            [--localpart n] [--server-name <name>]"@,
        ),
        !argv.contains("-h"@) && !argv.contains("--help"@) ==> {
            &&& flag_value(argv, "--bind"@) is None ==> command_line(argv) == Err::<ArgsView, Seq<char>>(
                "missing --bind <addr:port>"@,
            )
            &&& flag_value(argv, "--bind"@) is Some && flag_value(argv, "--storage"@) is None ==> command_line(argv) == Err::<
                ArgsView,
                Seq<char>,
            >("missing --storage <dir>"@)
            &&& flag_value(argv, "--bind"@) is Some && flag_value(argv, "--storage"@) is Some && flag_value(argv, "--fed-port"@) is None
                ==> command_line(argv) == Err::<ArgsView, Seq<char>>(
                "missing --fed-port <port> (without it federation never uses the mesh)"@,
            )
            &&& flag_value(argv, "--bind"@) is Some && flag_value(argv, "--storage"@) is Some && (flag_value(
                argv,
                "--fed-port"@,
            ) matches Some(port) && port_value(port) is Err) ==> command_line(argv) == Err::<ArgsView, Seq<char>>(
                "--fed-port: "@ + port_error_text(port_value(flag_value(argv, "--fed-port"@)->0)->Err_0),
            )
        },
{
}

/// What is said of a bad port, and of a server that does not start.
pub proof fn law_messages(error: Seq<char>)
    ensures
        port_error_text(PortError::Empty) == "cannot parse integer from empty string"@,
        port_error_text(PortError::InvalidDigit) == "invalid digit found in string"@,
        port_error_text(PortError::PosOverflow) == "number too large to fit in target type"@,
        refusal_text(error) == "neutrino refused to start: "@ + error,
        timeout_text() == "neutrino did not report a server name within 30s"@,
        READY_TIMEOUT_SECS == 30,
        READY_POLL_MILLIS == 100,
        OUTBOUND_CONCURRENCY == 8,
        DEFAULT_LOG_FILTER@ == "warn,neutrino_ble=info"@,
{
    reveal_strlit("neutrino did not report a server name within ");
    reveal_strlit("neutrino did not report a server name within 30s");
    reveal_strlit("s");
    reveal_strlit("0123456789");
    law_decimal_digits_in_order(0, 3);
    law_decimal_digits_in_order(3, 0);
    assert(decimal_text(30) =~= seq!['3', '0']);
    assert(timeout_text() =~= "neutrino did not report a server name within 30s"@);
}

/// The arguments are viewed word by word, and what they say field by field.
pub proof fn law_argument_views(argv: Seq<String>, args: Args, i: int)
    ensures
        words(argv).len() == argv.len(),
        0 <= i < argv.len() ==> words(argv)[i] == argv[i]@,
        args@.bind == args.bind@,
        args@.storage == args.storage@,
        args@.localpart == args.localpart@,
        args.server_name matches Some(name) ==> args@.server_name == Some(name@),
        args.server_name is None ==> args@.server_name is None,
        args@.fed_port == args.fed_port,
{
}

} // verus!
