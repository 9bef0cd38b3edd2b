//! Command lines of the programs: their options, defaults and usage texts.
//!
//! Whether a text is a socket address is told by the caller, for every
//! argument.

use vstd::prelude::*;

use crate::console::{console_help, help_text};
use crate::text::{
    all_digits, decimal_value, join, join3, same_text, strings_view,
};

verus! {

/// The number that an optional plus sign and digits spell, if it fits sixteen
/// bits.
pub open spec fn short_number(text: Seq<char>) -> Option<u16> {
    let digits = if text.len() > 0 && text[0] == '+' {
        text.skip(1)
    } else {
        text
    };
    if digits.len() > 0 && all_digits(digits) && decimal_value(digits) <= 65535 {
        Some(decimal_value(digits) as u16)
    } else {
        None
    }
}

/// The error text of `str::parse::<u16>` for a text that it refuses.
pub uninterp spec fn short_number_complaint(text: Seq<char>) -> Seq<char>;

/// Calls `str::parse::<u16>`. Claims that it accepts an optional plus sign
/// followed by digits alone whose number fits, and that the text of its error
/// depends on the given text alone.
#[verifier::external_body]
fn parse_short(text: &str) -> (result: Result<u16, String>)
    ensures
        match result {
            Ok(number) => short_number(text@) == Some(number),
            Err(error) => short_number(text@) is None && error@ == short_number_complaint(text@),
        },
{
    text.parse::<u16>().map_err(|error| error.to_string())
}

/// Whether each argument is a socket address, or the text of its refusal.
pub open spec fn answers_view(addresses: Seq<Result<(), String>>) -> Seq<Result<(), Seq<char>>> {
    Seq::new(addresses.len(), |i: int| answer_of(addresses[i]))
}

/// Whether an argument is a socket address, or the text of its refusal.
pub open spec fn answer_of(address: Result<(), String>) -> Result<(), Seq<char>> {
    match address {
        Ok(_) => Ok(()),
        Err(text) => Err(text@),
    }
}

/// An optional text.
pub open spec fn optional_view(text: Option<String>) -> Option<Seq<char>> {
    match text {
        Some(held) => Some(held@),
        None => None,
    }
}

/// The text that refuses an option without its value.
pub open spec fn missing_value(flag: Seq<char>) -> Seq<char> {
    "missing value for "@ + flag
}

/// The text that refuses an unknown argument.
pub open spec fn unknown_argument(argument: Seq<char>) -> Seq<char> {
    "unknown argument "@ + argument + "; use --help"@
}

/// The text that refuses a value that is no socket address.
pub open spec fn invalid_address(flag: Seq<char>, value: Seq<char>, text: Seq<char>) -> Seq<char> {
    "invalid "@ + flag + " address "@ + value + ": "@ + text
}

pub(crate) fn refuse_argument(argument: &str) -> (result: String)
    ensures
        result@ == unknown_argument(argument@),
{
    join3("unknown argument ", argument, "; use --help")
}

pub(crate) fn refuse_address(flag: &str, value: &str, text: &str) -> (result: String)
    ensures
        result@ == invalid_address(flag@, value@, text@),
{
    let head = join3("invalid ", flag, " address ");
    join3(join(head.as_str(), value).as_str(), ": ", text)
}

/// What an endpoint's command line held so far.
pub struct ArgumentsState {
    /// Path of the SID file.
    pub sid: Option<String>,
    /// Path of the encoded context.
    pub sor: Option<String>,
    /// Name of the device.
    pub device_id: String,
    /// Local address of the link.
    pub link_bind: Option<String>,
    /// Peer address of the link.
    pub link_peer: Option<String>,
    /// Name of the TUN device.
    pub tun_name: Option<String>,
    /// Packet size of the TUN device.
    pub tun_mtu: u16,
    /// Whether reports are structured.
    pub debug: bool,
    /// Whether the first completed operation ends the process.
    pub once: bool,
    /// Whether the usage was asked for.
    pub help: bool,
}

/// What an endpoint's command line held so far, as a mathematical value.
pub struct ArgumentsView {
    /// Path of the SID file.
    pub sid: Option<Seq<char>>,
    /// Path of the encoded context.
    pub sor: Option<Seq<char>>,
    /// Name of the device.
    pub device_id: Seq<char>,
    /// Local address of the link.
    pub link_bind: Option<Seq<char>>,
    /// Peer address of the link.
    pub link_peer: Option<Seq<char>>,
    /// Name of the TUN device.
    pub tun_name: Option<Seq<char>>,
    /// Packet size of the TUN device.
    pub tun_mtu: u16,
    /// Whether reports are structured.
    pub debug: bool,
    /// Whether the first completed operation ends the process.
    pub once: bool,
    /// Whether the usage was asked for.
    pub help: bool,
}

impl View for ArgumentsState {
    type V = ArgumentsView;

    open spec fn view(&self) -> ArgumentsView {
        ArgumentsView {
            sid: optional_view(self.sid),
            sor: optional_view(self.sor),
            device_id: self.device_id@,
            link_bind: optional_view(self.link_bind),
            link_peer: optional_view(self.link_peer),
            tun_name: optional_view(self.tun_name),
            tun_mtu: self.tun_mtu,
            debug: self.debug,
            once: self.once,
            help: self.help,
        }
    }
}

/// Whether an endpoint's option takes a value.
pub open spec fn takes_value(flag: Seq<char>) -> bool {
    ||| flag == "--sid"@
    ||| flag == "--sor"@
    ||| flag == "--tun-name"@
    ||| flag == "--tun-mtu"@
    ||| flag == "--device-id"@
    ||| flag == "--link-bind"@
    ||| flag == "--link-peer"@
}

/// What an endpoint's option with a value changes.
pub open spec fn with_value(
    held: ArgumentsView,
    flag: Seq<char>,
    value: Seq<char>,
    address: Result<(), Seq<char>>,
) -> Result<ArgumentsView, Seq<char>> {
    if flag == "--sid"@ {
        Ok(ArgumentsView { sid: Some(value), ..held })
    } else if flag == "--sor"@ {
        Ok(ArgumentsView { sor: Some(value), ..held })
    } else if flag == "--tun-name"@ {
        Ok(ArgumentsView { tun_name: Some(value), ..held })
    } else if flag == "--tun-mtu"@ {
        match short_number(value) {
            Some(tun_mtu) => Ok(ArgumentsView { tun_mtu, ..held }),
            None => Err("invalid --tun-mtu value: "@ + short_number_complaint(value)),
        }
    } else if flag == "--device-id"@ {
        Ok(ArgumentsView { device_id: value, ..held })
    } else if let Err(text) = address {
        Err(invalid_address(flag, value, text))
    } else if flag == "--link-bind"@ {
        Ok(ArgumentsView { link_bind: Some(value), ..held })
    } else {
        Ok(ArgumentsView { link_peer: Some(value), ..held })
    }
}

/// What an endpoint's command line holds from a position on.
pub open spec fn arguments_from(
    list: Seq<Seq<char>>,
    addresses: Seq<Result<(), Seq<char>>>,
    at: int,
    held: ArgumentsView,
) -> Result<ArgumentsView, Seq<char>>
    decreases list.len() - at,
{
    if at >= list.len() {
        Ok(held)
    } else if takes_value(list[at]) {
        if at + 1 >= list.len() {
            Err(missing_value(list[at]))
        } else {
            match with_value(held, list[at], list[at + 1], addresses[at + 1]) {
                Err(text) => Err(text),
                Ok(next) => arguments_from(list, addresses, at + 2, next),
            }
        }
    } else if list[at] == "--debug"@ {
        arguments_from(list, addresses, at + 1, ArgumentsView { debug: true, ..held })
    } else if list[at] == "--once"@ {
        arguments_from(list, addresses, at + 1, ArgumentsView { once: true, ..held })
    } else if list[at] == "-h"@ || list[at] == "--help"@ {
        arguments_from(list, addresses, at + 1, ArgumentsView { help: true, ..held })
    } else {
        Err(unknown_argument(list[at]))
    }
}

/// An endpoint's options before its command line is read.
pub open spec fn default_arguments() -> ArgumentsView {
    ArgumentsView {
        sid: None,
        sor: None,
        device_id: "demo-device"@,
        link_bind: None,
        link_peer: None,
        tun_name: None,
        tun_mtu: 1280,
        debug: false,
        once: false,
        help: false,
    }
}

/// Why complete options of an endpoint are refused.
pub open spec fn arguments_fault(held: ArgumentsView) -> Option<Seq<char>> {
    match held.tun_name {
        None => Some("missing required --tun-name"@),
        Some(name) => if name.len() == 0 {
            Some("--tun-name must not be empty"@)
        } else if held.tun_mtu < 1280 {
            Some("--tun-mtu must be at least 1280"@)
        } else if held.link_bind is None {
            Some("missing required --link-bind"@)
        } else if held.link_peer is None {
            Some("missing required --link-peer"@)
        } else {
            None
        },
    }
}

/// Options of an endpoint process.
#[derive(Debug)]
pub struct Args {
    /// Local address of the link.
    pub link_bind: String,
    /// Peer address of the link.
    pub link_peer: String,
    /// Whether reports are structured.
    pub debug: bool,
    /// Whether the first completed operation ends the process.
    pub once: bool,
    /// Name of the TUN device.
    pub tun_name: String,
    /// Packet size of the TUN device.
    pub tun_mtu: u16,
    /// Path of the SID file.
    pub sid: Option<String>,
    /// Path of the encoded context.
    pub sor: Option<String>,
    /// Name of the device.
    pub device_id: String,
}

impl View for Args {
    type V = ArgumentsView;

    open spec fn view(&self) -> ArgumentsView {
        ArgumentsView {
            sid: optional_view(self.sid),
            sor: optional_view(self.sor),
            device_id: self.device_id@,
            link_bind: Some(self.link_bind@),
            link_peer: Some(self.link_peer@),
            tun_name: Some(self.tun_name@),
            tun_mtu: self.tun_mtu,
            debug: self.debug,
            once: self.once,
            help: false,
        }
    }
}

/// The options of an endpoint's command line; none when it asks for the usage.
pub open spec fn endpoint_options(
    list: Seq<Seq<char>>,
    addresses: Seq<Result<(), Seq<char>>>,
) -> Result<Option<ArgumentsView>, Seq<char>> {
    match arguments_from(list, addresses, 0, default_arguments()) {
        Err(text) => Err(text),
        Ok(held) => if held.help {
            Ok(None)
        } else {
            match arguments_fault(held) {
                Some(text) => Err(text),
                None => Ok(Some(held)),
            }
        },
    }
}

fn is_valued(flag: &str) -> (result: bool)
    ensures
        result == takes_value(flag@),
{
    same_text(flag, "--sid") || same_text(flag, "--sor") || same_text(flag, "--tun-name")
        || same_text(flag, "--tun-mtu") || same_text(flag, "--device-id") || same_text(
        flag,
        "--link-bind",
    ) || same_text(flag, "--link-peer")
}

impl ArgumentsState {
    fn set(&mut self, flag: &str, value: &str, address: &Result<(), String>) -> (result: Result<
        (),
        String,
    >)
        requires
            takes_value(flag@),
        ensures
            match result {
                Ok(()) => with_value(old(self)@, flag@, value@, answer_of(*address)) == Ok::<
                    ArgumentsView,
                    Seq<char>,
                >(final(self)@),
                Err(text) => with_value(old(self)@, flag@, value@, answer_of(*address)) == Err::<
                    ArgumentsView,
                    Seq<char>,
                >(text@),
            },
    {
        if same_text(flag, "--sid") {
            self.sid = Some(value.to_owned());
        } else if same_text(flag, "--sor") {
            self.sor = Some(value.to_owned());
        } else if same_text(flag, "--tun-name") {
            self.tun_name = Some(value.to_owned());
        } else if same_text(flag, "--tun-mtu") {
            match parse_short(value) {
                Ok(tun_mtu) => {
                    self.tun_mtu = tun_mtu;
                },
                Err(error) => {
                    return Err(join("invalid --tun-mtu value: ", error.as_str()));
                },
            }
        } else if same_text(flag, "--device-id") {
            self.device_id = value.to_owned();
        } else {
            if let Err(text) = address {
                return Err(refuse_address(flag, value, text.as_str()));
            }
            if same_text(flag, "--link-bind") {
                self.link_bind = Some(value.to_owned());
            } else {
                self.link_peer = Some(value.to_owned());
            }
        }
        Ok(())
    }
}

impl Args {
    /// Reads an endpoint's command line without the name of the process;
    /// returns none when it asks for the usage. `addresses` tells of each
    /// argument whether it is a socket address.
    pub fn parse(arguments: &Vec<String>, addresses: &Vec<Result<(), String>>) -> (result: Result<
        Option<Self>,
        String,
    >)
        requires
            addresses@.len() == arguments@.len(),
        ensures
            ({
                let outcome = endpoint_options(
                    strings_view(arguments@),
                    answers_view(addresses@),
                );
                match result {
                    Ok(Some(options)) => outcome == Ok::<Option<ArgumentsView>, Seq<char>>(
                        Some(options@),
                    ),
                    Ok(None) => outcome == Ok::<Option<ArgumentsView>, Seq<char>>(None),
                    Err(text) => outcome == Err::<Option<ArgumentsView>, Seq<char>>(text@),
                }
            }),
    {
        let ghost list = strings_view(arguments@);
        let ghost answers = answers_view(addresses@);
        let mut state = ArgumentsState {
            sid: None,
            sor: None,
            device_id: "demo-device".to_owned(),
            link_bind: None,
            link_peer: None,
            tun_name: None,
            tun_mtu: 1280,
            debug: false,
            once: false,
            help: false,
        };
        assert(state@ == default_arguments());
        let mut at: usize = 0;
        while at < arguments.len()
            invariant
                at <= arguments@.len(),
                addresses@.len() == arguments@.len(),
                list == strings_view(arguments@),
                answers == answers_view(addresses@),
                arguments_from(list, answers, 0, default_arguments()) == arguments_from(
                    list,
                    answers,
                    at as int,
                    state@,
                ),
            decreases arguments.len() - at,
        {
            let argument = arguments[at].as_str();
            assert(argument@ == list[at as int]);
            if is_valued(argument) {
                if arguments.len() - at <= 1 {
                    return Err(join("missing value for ", argument));
                }
                assert(list[at + 1] == arguments@[at + 1]@);
                assert(answers[at + 1] == answer_of(addresses@[at + 1]));
                match state.set(argument, arguments[at + 1].as_str(), &addresses[at + 1]) {
                    Ok(()) => {},
                    Err(text) => {
                        return Err(text);
                    },
                }
                at += 2;
            } else if same_text(argument, "--debug") {
                state.debug = true;
                at += 1;
            } else if same_text(argument, "--once") {
                state.once = true;
                at += 1;
            } else if same_text(argument, "-h") || same_text(argument, "--help") {
                state.help = true;
                at += 1;
            } else {
                return Err(refuse_argument(argument));
            }
        }
        if state.help {
            return Ok(None);
        }
        let ghost held = state@;
        let tun_name = match state.tun_name {
            Some(name) => name,
            None => {
                return Err("missing required --tun-name".to_owned());
            },
        };
        if tun_name.as_str().unicode_len() == 0 {
            return Err("--tun-name must not be empty".to_owned());
        }
        if state.tun_mtu < 1280 {
            return Err("--tun-mtu must be at least 1280".to_owned());
        }
        let link_bind = match state.link_bind {
            Some(address) => address,
            None => {
                return Err("missing required --link-bind".to_owned());
            },
        };
        let link_peer = match state.link_peer {
            Some(address) => address,
            None => {
                return Err("missing required --link-peer".to_owned());
            },
        };
        let options = Args {
            link_bind,
            link_peer,
            debug: state.debug,
            once: state.once,
            tun_name,
            tun_mtu: state.tun_mtu,
            sid: state.sid,
            sor: state.sor,
            device_id: state.device_id,
        };
        assert(options@ == held);
        Ok(Some(options))
    }
}

/// The lines of an endpoint's usage.
pub open spec fn usage_text(process_name: Seq<char>, is_core: bool) -> Seq<Seq<char>> {
    seq![
        "Usage: "@ + process_name
            + " --link-bind ADDR --link-peer ADDR --tun-name NAME [--tun-mtu MTU] [--debug] [--once] [--sid PATH] [--sor PATH] [--device-id ID]"@,
        "Options:"@,
        "  --debug  Include structured packet and SCHC accounting in traffic reports"@,
        "  --once   Exit after the first completed operation"@,
    ] + (if is_core {
        help_text()
    } else {
        seq!["Device mode: waits for SCHC frames from its configured peer"@]
    })
}

/// Returns the lines of an endpoint's usage.
pub fn endpoint_usage(process_name: &str, is_core: bool) -> (result: Vec<String>)
    ensures
        strings_view(result@) == usage_text(process_name@, is_core),
{
    let mut result: Vec<String> = vec![
        join3(
            "Usage: ",
            process_name,
            " --link-bind ADDR --link-peer ADDR --tun-name NAME [--tun-mtu MTU] [--debug] [--once] [--sid PATH] [--sor PATH] [--device-id ID]",
        ),
        "Options:".to_owned(),
        "  --debug  Include structured packet and SCHC accounting in traffic reports".to_owned(),
        "  --once   Exit after the first completed operation".to_owned(),
    ];
    let ghost head = strings_view(result@);
    let mut tail: Vec<String> = if is_core {
        console_help()
    } else {
        vec!["Device mode: waits for SCHC frames from its configured peer".to_owned()]
    };
    let ghost rest = strings_view(tail@);
    assert(!is_core ==> rest =~= seq![
        "Device mode: waits for SCHC frames from its configured peer"@,
    ]);
    result.append(&mut tail);
    assert(strings_view(result@) =~= head + rest);
    assert(strings_view(result@) =~= usage_text(process_name@, is_core));
    result
}

/// A number of an option is that of its digits, with or without a plus sign in
/// front, and has at most sixteen bits.
pub proof fn short_number_is_that_of_its_digits(digits: Seq<char>)
    requires
        digits.len() > 0,
        all_digits(digits),
    ensures
        decimal_value(digits) <= 0xffff ==> short_number(digits) == Some(
            decimal_value(digits) as u16,
        ) && short_number(seq!['+'] + digits) == Some(decimal_value(digits) as u16),
        decimal_value(digits) > 0xffff ==> short_number(digits) is None && short_number(
            seq!['+'] + digits,
        ) is None,
{
    assert((seq!['+'] + digits).skip(1) =~= digits);
    assert(digits[0] != '+');
}

proof fn lemma_option_texts()
    ensures
        "--sid"@ =~= seq!['-', '-', 's', 'i', 'd'],
        "--sor"@ =~= seq!['-', '-', 's', 'o', 'r'],
        "--tun-name"@.len() == 10,
        "--tun-mtu"@.len() == 9,
        "--tun-mtu"@[2] == 't',
        "--device-id"@.len() == 11,
        "--device-id"@[2] == 'd',
        "--link-bind"@.len() == 11,
        "--link-bind"@[2] == 'l',
        "--link-bind"@[7] == 'b',
        "--link-peer"@.len() == 11,
        "--link-peer"@[2] == 'l',
        "--link-peer"@[7] == 'p',
        "--debug"@.len() == 7,
        "--once"@.len() == 6,
        "--help"@ =~= seq!['-', '-', 'h', 'e', 'l', 'p'],
        "--once"@[2] == 'o',
        "-h"@.len() == 2,
{
    reveal_strlit("--sid");
    reveal_strlit("--sor");
    reveal_strlit("--tun-name");
    reveal_strlit("--tun-mtu");
    reveal_strlit("--device-id");
    reveal_strlit("--link-bind");
    reveal_strlit("--link-peer");
    reveal_strlit("--debug");
    reveal_strlit("--once");
    reveal_strlit("--help");
    reveal_strlit("-h");
}

/// An option with a value changes what it names, to that value, and nothing
/// else; an MTU has to be a number and a link end a socket address.
pub proof fn options_set_what_they_name(
    held: ArgumentsView,
    value: Seq<char>,
    address: Result<(), Seq<char>>,
)
    ensures
        with_value(held, "--sid"@, value, address) == Ok::<ArgumentsView, Seq<char>>(
            ArgumentsView { sid: Some(value), ..held },
        ),
        with_value(held, "--sor"@, value, address) == Ok::<ArgumentsView, Seq<char>>(
            ArgumentsView { sor: Some(value), ..held },
        ),
        with_value(held, "--tun-name"@, value, address) == Ok::<ArgumentsView, Seq<char>>(
            ArgumentsView { tun_name: Some(value), ..held },
        ),
        with_value(held, "--device-id"@, value, address) == Ok::<ArgumentsView, Seq<char>>(
            ArgumentsView { device_id: value, ..held },
        ),
        short_number(value) matches Some(mtu) ==> with_value(held, "--tun-mtu"@, value, address)
            == Ok::<ArgumentsView, Seq<char>>((ArgumentsView { tun_mtu: mtu, ..held })),
        short_number(value) is None ==> with_value(held, "--tun-mtu"@, value, address) is Err,
        address is Ok ==> with_value(held, "--link-bind"@, value, address) == Ok::<
            ArgumentsView,
            Seq<char>,
        >((ArgumentsView { link_bind: Some(value), ..held })) && with_value(
            held,
            "--link-peer"@,
            value,
            address,
        ) == Ok::<ArgumentsView, Seq<char>>((ArgumentsView { link_peer: Some(value), ..held })),
        address is Err ==> with_value(held, "--link-bind"@, value, address) is Err && with_value(
            held,
            "--link-peer"@,
            value,
            address,
        ) is Err,
{
    lemma_option_texts();
    assert("--sid"@[2] == 's' && "--sid"@[3] == 'i' && "--sor"@[3] == 'o');
}

/// A command line is read from its start: a switch turns on what it names, an
/// option takes the argument behind it as its value, and any other argument is
/// refused.
pub proof fn arguments_are_read_in_order(
    list: Seq<Seq<char>>,
    addresses: Seq<Result<(), Seq<char>>>,
    at: int,
    held: ArgumentsView,
)
    requires
        0 <= at < list.len(),
    ensures
        list[at] == "--debug"@ ==> arguments_from(list, addresses, at, held) == arguments_from(
            list,
            addresses,
            at + 1,
            ArgumentsView { debug: true, ..held },
        ),
        list[at] == "--once"@ ==> arguments_from(list, addresses, at, held) == arguments_from(
            list,
            addresses,
            at + 1,
            ArgumentsView { once: true, ..held },
        ),
        list[at] == "-h"@ || list[at] == "--help"@ ==> arguments_from(list, addresses, at, held)
            == arguments_from(list, addresses, at + 1, ArgumentsView { help: true, ..held }),
        takes_value(list[at]) && at + 1 == list.len() ==> arguments_from(
            list,
            addresses,
            at,
            held,
        ) is Err,
        takes_value(list[at]) && at + 1 < list.len() && with_value(
            held,
            list[at],
            list[at + 1],
            addresses[at + 1],
        ) is Ok ==> arguments_from(list, addresses, at, held) == arguments_from(
            list,
            addresses,
            at + 2,
            with_value(held, list[at], list[at + 1], addresses[at + 1])->Ok_0,
        ),
        takes_value(list[at]) && at + 1 < list.len() && with_value(
            held,
            list[at],
            list[at + 1],
            addresses[at + 1],
        ) is Err ==> arguments_from(list, addresses, at, held) is Err,
        takes_value(list[at]) <==> (list[at] == "--sid"@ || list[at] == "--sor"@ || list[at]
            == "--tun-name"@ || list[at] == "--tun-mtu"@ || list[at] == "--device-id"@ || list[at]
            == "--link-bind"@ || list[at] == "--link-peer"@),
        !takes_value(list[at]) && list[at] != "--debug"@ && list[at] != "--once"@ && list[at]
            != "-h"@ && list[at] != "--help"@ ==> arguments_from(list, addresses, at, held) is Err,
        arguments_from(list, addresses, list.len() as int, held) == Ok::<
            ArgumentsView,
            Seq<char>,
        >(held),
{
    lemma_option_texts();
    assert("--sid"@.len() == 5 && "--sor"@.len() == 5 && "--help"@.len() == 6);
    assert("--help"@[2] == 'h');
}

/// An endpoint starts with a named tunnel device, an MTU of at least 1280 and
/// both link ends; without options it is the demo device and its MTU is 1280.
pub proof fn accepted_options_are_complete(
    list: Seq<Seq<char>>,
    addresses: Seq<Result<(), Seq<char>>>,
)
    ensures
        endpoint_options(list, addresses) matches Ok(Some(held)) ==> arguments_from(
            list,
            addresses,
            0,
            default_arguments(),
        ) == Ok::<ArgumentsView, Seq<char>>(held) && !held.help && held.tun_name is Some
            && held.tun_name->0.len() > 0 && held.tun_mtu >= 1280 && held.link_bind is Some
            && held.link_peer is Some,
        endpoint_options(list, addresses) matches Ok(None) ==> arguments_from(
            list,
            addresses,
            0,
            default_arguments(),
        ) is Ok && arguments_from(list, addresses, 0, default_arguments())->Ok_0.help,
        arguments_from(list, addresses, 0, default_arguments()) matches Ok(held) ==> held.help
            ==> endpoint_options(list, addresses) == Ok::<Option<ArgumentsView>, Seq<char>>(None),
        arguments_from(list, addresses, 0, default_arguments()) matches Ok(held) ==> !held.help
            && held.tun_name is Some && held.tun_name->0.len() > 0 && held.tun_mtu >= 1280
            && held.link_bind is Some && held.link_peer is Some ==> endpoint_options(
            list,
            addresses,
        ) == Ok::<Option<ArgumentsView>, Seq<char>>(Some(held)),
        default_arguments().sid is None,
        default_arguments().sor is None,
        default_arguments().tun_name is None,
        default_arguments().link_bind is None,
        default_arguments().link_peer is None,
        default_arguments().tun_mtu == 1280,
        default_arguments().device_id == "demo-device"@,
        !default_arguments().debug && !default_arguments().once && !default_arguments().help,
{
}

} // verus!
