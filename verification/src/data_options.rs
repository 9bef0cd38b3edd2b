//! Command lines of the data client and the data server.
//!
//! Whether a text is a socket address is told by the caller, for every
//! argument.

use vstd::prelude::*;

use crate::options::{
    answer_of, answers_view, invalid_address, missing_value, optional_view, refuse_address,
    refuse_argument, unknown_argument,
};
use crate::text::{join, join3, same_text, strings_view, strip_prefix};

verus! {

/// What a data program's command line held so far.
pub struct DataState {
    /// Paths of the SID files.
    pub sid_paths: Vec<String>,
    /// Path of the datastore.
    pub data_path: Option<String>,
    /// Address of the server.
    pub address: Option<String>,
    /// Resource path.
    pub resource_path: Option<String>,
    /// Whether the usage was asked for.
    pub help: bool,
}

/// What a data program's command line held so far, as a mathematical value.
#[verifier::ext_equal]
pub struct DataView {
    /// Paths of the SID files.
    pub sid_paths: Seq<Seq<char>>,
    /// Path of the datastore.
    pub data_path: Option<Seq<char>>,
    /// Address of the server.
    pub address: Option<Seq<char>>,
    /// Resource path.
    pub resource_path: Option<Seq<char>>,
    /// Whether the usage was asked for.
    pub help: bool,
}

impl View for DataState {
    type V = DataView;

    open spec fn view(&self) -> DataView {
        DataView {
            sid_paths: strings_view(self.sid_paths@),
            data_path: optional_view(self.data_path),
            address: optional_view(self.address),
            resource_path: optional_view(self.resource_path),
            help: self.help,
        }
    }
}

/// A command line that held nothing.
pub open spec fn no_data_options() -> DataView {
    DataView {
        sid_paths: Seq::empty(),
        data_path: None,
        address: None,
        resource_path: None,
        help: false,
    }
}

fn empty_state() -> (result: DataState)
    ensures
        result@ == no_data_options(),
{
    let result = DataState {
        sid_paths: Vec::new(),
        data_path: None,
        address: None,
        resource_path: None,
        help: false,
    };
    assert(result@ =~= no_data_options());
    result
}

/// Whether a server's option takes a value.
pub open spec fn server_value(flag: Seq<char>) -> bool {
    flag == "--sid"@ || flag == "--data"@ || flag == "--bind"@ || flag == "--path"@
}

/// Whether a server's option was given before and may not be repeated.
pub open spec fn repeated(held: DataView, flag: Seq<char>) -> bool {
    ||| flag == "--data"@ && held.data_path is Some
    ||| flag == "--bind"@ && held.address is Some
    ||| flag == "--path"@ && held.resource_path is Some
}

/// What a server's option with a value changes.
pub open spec fn server_with(
    held: DataView,
    flag: Seq<char>,
    value: Seq<char>,
    address: Result<(), Seq<char>>,
) -> Result<DataView, Seq<char>> {
    if flag == "--sid"@ {
        Ok(DataView { sid_paths: held.sid_paths.push(value), ..held })
    } else if flag == "--data"@ {
        Ok(DataView { data_path: Some(value), ..held })
    } else if flag == "--path"@ {
        Ok(DataView { resource_path: Some(value), ..held })
    } else {
        match address {
            Ok(_) => Ok(DataView { address: Some(value), ..held }),
            Err(text) => Err(invalid_address(flag, value, text)),
        }
    }
}

/// What a server's command line holds from a position on. A value may not
/// begin like an option.
pub open spec fn server_from(
    list: Seq<Seq<char>>,
    addresses: Seq<Result<(), Seq<char>>>,
    at: int,
    held: DataView,
) -> Result<DataView, Seq<char>>
    decreases list.len() - at,
{
    if at >= list.len() {
        Ok(held)
    } else if server_value(list[at]) {
        if repeated(held, list[at]) {
            Err("duplicate "@ + list[at] + " option"@)
        } else if at + 1 >= list.len() || "-"@.is_prefix_of(list[at + 1]) {
            Err(missing_value(list[at]))
        } else {
            match server_with(held, list[at], list[at + 1], addresses[at + 1]) {
                Err(text) => Err(text),
                Ok(next) => server_from(list, addresses, at + 2, next),
            }
        }
    } else if list[at] == "-h"@ || list[at] == "--help"@ {
        server_from(list, addresses, at + 1, DataView { help: true, ..held })
    } else {
        Err(unknown_argument(list[at]))
    }
}

/// The resource path that was given, or the usual one.
pub open spec fn path_or_default(path: Option<Seq<char>>) -> Seq<char> {
    match path {
        Some(given) => given,
        None => "c"@,
    }
}

/// Options of the data server.
#[derive(Debug)]
pub struct ServerOptions {
    /// Paths of the SID files.
    pub sid_paths: Vec<String>,
    /// Path of the datastore.
    pub data_path: String,
    /// Address that the server listens on.
    pub bind: String,
    /// Resource path.
    pub resource_path: String,
    /// Whether the usage was asked for.
    pub help: bool,
}

/// Options of the data server as a mathematical value.
#[verifier::ext_equal]
pub struct ServerView {
    /// Paths of the SID files.
    pub sid_paths: Seq<Seq<char>>,
    /// Path of the datastore.
    pub data_path: Seq<char>,
    /// Address that the server listens on.
    pub bind: Seq<char>,
    /// Resource path.
    pub resource_path: Seq<char>,
    /// Whether the usage was asked for.
    pub help: bool,
}

impl View for ServerOptions {
    type V = ServerView;

    open spec fn view(&self) -> ServerView {
        ServerView {
            sid_paths: strings_view(self.sid_paths@),
            data_path: self.data_path@,
            bind: self.bind@,
            resource_path: self.resource_path@,
            help: self.help,
        }
    }
}

/// The options of a server's command line. When it asks for the usage, its
/// other required options may be missing.
pub open spec fn server_options(
    list: Seq<Seq<char>>,
    addresses: Seq<Result<(), Seq<char>>>,
) -> Result<ServerView, Seq<char>> {
    match server_from(list, addresses, 0, no_data_options()) {
        Err(text) => Err(text),
        Ok(held) => if held.help {
            Ok(
                ServerView {
                    sid_paths: held.sid_paths,
                    data_path: Seq::empty(),
                    bind: "127.0.0.1:0"@,
                    resource_path: path_or_default(held.resource_path),
                    help: true,
                },
            )
        } else if held.data_path is None {
            Err("missing required --data PATH"@)
        } else if held.address is None {
            Err("missing required --bind ADDR"@)
        } else if held.sid_paths.len() == 0 {
            Err("missing required --sid PATH"@)
        } else {
            Ok(
                ServerView {
                    sid_paths: held.sid_paths,
                    data_path: held.data_path->0,
                    bind: held.address->0,
                    resource_path: path_or_default(held.resource_path),
                    help: false,
                },
            )
        },
    }
}

fn chosen_path(path: Option<String>) -> (result: String)
    ensures
        result@ == path_or_default(optional_view(path)),
{
    match path {
        Some(given) => given,
        None => "c".to_owned(),
    }
}

impl DataState {
    fn add_sid(&mut self, value: &str)
        ensures
            final(self)@ == (DataView {
                sid_paths: old(self)@.sid_paths.push(value@),
                ..old(self)@
            }),
    {
        self.sid_paths.push(value.to_owned());
        assert(strings_view(self.sid_paths@) =~= old(self)@.sid_paths.push(value@));
    }

    fn set_server(&mut self, flag: &str, value: &str, address: &Result<(), String>) -> (result:
        Result<(), String>)
        requires
            server_value(flag@),
        ensures
            match result {
                Ok(()) => server_with(old(self)@, flag@, value@, answer_of(*address)) == Ok::<
                    DataView,
                    Seq<char>,
                >(final(self)@),
                Err(text) => server_with(old(self)@, flag@, value@, answer_of(*address)) == Err::<
                    DataView,
                    Seq<char>,
                >(text@),
            },
    {
        if same_text(flag, "--sid") {
            self.add_sid(value);
        } else if same_text(flag, "--data") {
            self.data_path = Some(value.to_owned());
        } else if same_text(flag, "--path") {
            self.resource_path = Some(value.to_owned());
        } else {
            if let Err(text) = address {
                return Err(refuse_address(flag, value, text.as_str()));
            }
            self.address = Some(value.to_owned());
        }
        Ok(())
    }
}

impl ServerOptions {
    /// Reads a server's command line without the name of the process.
    /// `addresses` tells of each argument whether it is a socket address.
    pub fn parse_arguments(
        arguments: &Vec<String>,
        addresses: &Vec<Result<(), String>>,
    ) -> (result: Result<Self, String>)
        requires
            addresses@.len() == arguments@.len(),
        ensures
            ({
                let outcome = server_options(strings_view(arguments@), answers_view(addresses@));
                match result {
                    Ok(options) => outcome == Ok::<ServerView, Seq<char>>(options@),
                    Err(text) => outcome == Err::<ServerView, Seq<char>>(text@),
                }
            }),
    {
        let ghost list = strings_view(arguments@);
        let ghost answers = answers_view(addresses@);
        let mut state = empty_state();
        let mut at: usize = 0;
        while at < arguments.len()
            invariant
                at <= arguments@.len(),
                addresses@.len() == arguments@.len(),
                list == strings_view(arguments@),
                answers == answers_view(addresses@),
                server_from(list, answers, 0, no_data_options()) == server_from(
                    list,
                    answers,
                    at as int,
                    state@,
                ),
            decreases arguments.len() - at,
        {
            let argument = arguments[at].as_str();
            assert(argument@ == list[at as int]);
            if same_text(argument, "--sid") || same_text(argument, "--data") || same_text(
                argument,
                "--bind",
            ) || same_text(argument, "--path") {
                if (same_text(argument, "--data") && state.data_path.is_some()) || (same_text(
                    argument,
                    "--bind",
                ) && state.address.is_some()) || (same_text(argument, "--path")
                    && state.resource_path.is_some()) {
                    return Err(join3("duplicate ", argument, " option"));
                }
                if arguments.len() - at <= 1 {
                    return Err(join("missing value for ", argument));
                }
                assert(list[at + 1] == arguments@[at + 1]@);
                assert(answers[at + 1] == answer_of(addresses@[at + 1]));
                if strip_prefix(arguments[at + 1].as_str(), "-").is_some() {
                    return Err(join("missing value for ", argument));
                }
                match state.set_server(argument, arguments[at + 1].as_str(), &addresses[at + 1]) {
                    Ok(()) => {},
                    Err(text) => {
                        return Err(text);
                    },
                }
                at += 2;
            } else if same_text(argument, "-h") || same_text(argument, "--help") {
                state.help = true;
                at += 1;
            } else {
                return Err(refuse_argument(argument));
            }
        }
        if state.help {
            let options = ServerOptions {
                sid_paths: state.sid_paths,
                data_path: String::new(),
                bind: "127.0.0.1:0".to_owned(),
                resource_path: chosen_path(state.resource_path),
                help: true,
            };
            assert(options@.data_path =~= Seq::<char>::empty());
            return Ok(options);
        }
        let data_path = match state.data_path {
            Some(path) => path,
            None => {
                return Err("missing required --data PATH".to_owned());
            },
        };
        let bind = match state.address {
            Some(address) => address,
            None => {
                return Err("missing required --bind ADDR".to_owned());
            },
        };
        if state.sid_paths.len() == 0 {
            return Err("missing required --sid PATH".to_owned());
        }
        Ok(
            ServerOptions {
                sid_paths: state.sid_paths,
                data_path,
                bind,
                resource_path: chosen_path(state.resource_path),
                help: false,
            },
        )
    }
}

/// Returns the first line of the server's usage.
pub fn usage() -> (result: &'static str)
    ensures
        result@
            == "Usage: schc-data-server --sid PATH [--sid PATH ...] --data PATH --bind ADDR [--path PATH]"@,
{
    "Usage: schc-data-server --sid PATH [--sid PATH ...] --data PATH --bind ADDR [--path PATH]"
}

/// Returns the lines of the server's usage.
pub fn server_usage() -> (result: Vec<String>)
    ensures
        strings_view(result@) == seq![
            "Usage: schc-data-server --sid PATH [--sid PATH ...] --data PATH --bind ADDR [--path PATH]"@,
            "Options:"@,
            "  --sid PATH    Application SID file (repeatable)"@,
            "  --data PATH   JSON application datastore"@,
            "  --bind ADDR   UDP bind address"@,
            "  --path PATH   CORECONF resource path (default: c)"@,
        ],
{
    let result: Vec<String> = vec![
        usage().to_owned(),
        "Options:".to_owned(),
        "  --sid PATH    Application SID file (repeatable)".to_owned(),
        "  --data PATH   JSON application datastore".to_owned(),
        "  --bind ADDR   UDP bind address".to_owned(),
        "  --path PATH   CORECONF resource path (default: c)".to_owned(),
    ];
    assert(strings_view(result@) =~= seq![
        "Usage: schc-data-server --sid PATH [--sid PATH ...] --data PATH --bind ADDR [--path PATH]"@,
        "Options:"@,
        "  --sid PATH    Application SID file (repeatable)"@,
        "  --data PATH   JSON application datastore"@,
        "  --bind ADDR   UDP bind address"@,
        "  --path PATH   CORECONF resource path (default: c)"@,
    ]);
    result
}

/// Whether a client's option takes a value.
pub open spec fn client_value(flag: Seq<char>) -> bool {
    flag == "--sid"@ || flag == "--server"@ || flag == "--endpoint"@ || flag == "--path"@
}

/// What a client's option with a value changes.
pub open spec fn client_with(
    held: DataView,
    flag: Seq<char>,
    value: Seq<char>,
    address: Result<(), Seq<char>>,
) -> Result<DataView, Seq<char>> {
    if flag == "--sid"@ {
        Ok(DataView { sid_paths: held.sid_paths.push(value), ..held })
    } else if flag == "--path"@ {
        Ok(DataView { resource_path: Some(value), ..held })
    } else {
        match address {
            Ok(_) => Ok(DataView { address: Some(value), ..held }),
            Err(text) => Err(invalid_address(flag, value, text)),
        }
    }
}

/// What a client's command line holds from a position on.
pub open spec fn client_from(
    list: Seq<Seq<char>>,
    addresses: Seq<Result<(), Seq<char>>>,
    at: int,
    held: DataView,
) -> Result<DataView, Seq<char>>
    decreases list.len() - at,
{
    if at >= list.len() {
        Ok(held)
    } else if client_value(list[at]) {
        if at + 1 >= list.len() {
            Err(missing_value(list[at]))
        } else {
            match client_with(held, list[at], list[at + 1], addresses[at + 1]) {
                Err(text) => Err(text),
                Ok(next) => client_from(list, addresses, at + 2, next),
            }
        }
    } else if list[at] == "-h"@ || list[at] == "--help"@ {
        client_from(list, addresses, at + 1, DataView { help: true, ..held })
    } else {
        Err(unknown_argument(list[at]))
    }
}

/// Options of the data client.
#[derive(Debug)]
pub struct ClientOptions {
    /// Paths of the SID files.
    pub sid_paths: Vec<String>,
    /// Address of the server.
    pub server: String,
    /// Resource path.
    pub resource_path: String,
    /// Whether the usage was asked for.
    pub help: bool,
}

/// Options of the data client as a mathematical value.
#[verifier::ext_equal]
pub struct ClientView {
    /// Paths of the SID files.
    pub sid_paths: Seq<Seq<char>>,
    /// Address of the server.
    pub server: Seq<char>,
    /// Resource path.
    pub resource_path: Seq<char>,
    /// Whether the usage was asked for.
    pub help: bool,
}

impl View for ClientOptions {
    type V = ClientView;

    open spec fn view(&self) -> ClientView {
        ClientView {
            sid_paths: strings_view(self.sid_paths@),
            server: self.server@,
            resource_path: self.resource_path@,
            help: self.help,
        }
    }
}

/// The options of a client's command line. When it asks for the usage, its
/// required options may be missing.
pub open spec fn client_options(
    list: Seq<Seq<char>>,
    addresses: Seq<Result<(), Seq<char>>>,
) -> Result<ClientView, Seq<char>> {
    match client_from(list, addresses, 0, no_data_options()) {
        Err(text) => Err(text),
        Ok(held) => if held.help {
            Ok(
                ClientView {
                    sid_paths: held.sid_paths,
                    server: "127.0.0.1:0"@,
                    resource_path: path_or_default(held.resource_path),
                    help: true,
                },
            )
        } else if held.sid_paths.len() == 0 {
            Err("missing required --sid PATH"@)
        } else if held.address is None {
            Err("missing required --server ADDR"@)
        } else {
            Ok(
                ClientView {
                    sid_paths: held.sid_paths,
                    server: held.address->0,
                    resource_path: path_or_default(held.resource_path),
                    help: false,
                },
            )
        },
    }
}

impl DataState {
    fn set_client(&mut self, flag: &str, value: &str, address: &Result<(), String>) -> (result:
        Result<(), String>)
        requires
            client_value(flag@),
        ensures
            match result {
                Ok(()) => client_with(old(self)@, flag@, value@, answer_of(*address)) == Ok::<
                    DataView,
                    Seq<char>,
                >(final(self)@),
                Err(text) => client_with(old(self)@, flag@, value@, answer_of(*address)) == Err::<
                    DataView,
                    Seq<char>,
                >(text@),
            },
    {
        if same_text(flag, "--sid") {
            self.add_sid(value);
        } else if same_text(flag, "--path") {
            self.resource_path = Some(value.to_owned());
        } else {
            if let Err(text) = address {
                return Err(refuse_address(flag, value, text.as_str()));
            }
            self.address = Some(value.to_owned());
        }
        Ok(())
    }
}

impl ClientOptions {
    /// Reads a client's command line without the name of the process.
    /// `addresses` tells of each argument whether it is a socket address.
    pub fn parse(arguments: &Vec<String>, addresses: &Vec<Result<(), String>>) -> (result: Result<
        Self,
        String,
    >)
        requires
            addresses@.len() == arguments@.len(),
        ensures
            ({
                let outcome = client_options(strings_view(arguments@), answers_view(addresses@));
                match result {
                    Ok(options) => outcome == Ok::<ClientView, Seq<char>>(options@),
                    Err(text) => outcome == Err::<ClientView, Seq<char>>(text@),
                }
            }),
    {
        let ghost list = strings_view(arguments@);
        let ghost answers = answers_view(addresses@);
        let mut state = empty_state();
        let mut at: usize = 0;
        while at < arguments.len()
            invariant
                at <= arguments@.len(),
                addresses@.len() == arguments@.len(),
                list == strings_view(arguments@),
                answers == answers_view(addresses@),
                client_from(list, answers, 0, no_data_options()) == client_from(
                    list,
                    answers,
                    at as int,
                    state@,
                ),
            decreases arguments.len() - at,
        {
            let argument = arguments[at].as_str();
            assert(argument@ == list[at as int]);
            if same_text(argument, "--sid") || same_text(argument, "--server") || same_text(
                argument,
                "--endpoint",
            ) || same_text(argument, "--path") {
                if arguments.len() - at <= 1 {
                    return Err(join("missing value for ", argument));
                }
                assert(list[at + 1] == arguments@[at + 1]@);
                assert(answers[at + 1] == answer_of(addresses@[at + 1]));
                match state.set_client(argument, arguments[at + 1].as_str(), &addresses[at + 1]) {
                    Ok(()) => {},
                    Err(text) => {
                        return Err(text);
                    },
                }
                at += 2;
            } else if same_text(argument, "-h") || same_text(argument, "--help") {
                state.help = true;
                at += 1;
            } else {
                return Err(refuse_argument(argument));
            }
        }
        if state.help {
            return Ok(
                ClientOptions {
                    sid_paths: state.sid_paths,
                    server: "127.0.0.1:0".to_owned(),
                    resource_path: chosen_path(state.resource_path),
                    help: true,
                },
            );
        }
        if state.sid_paths.len() == 0 {
            return Err("missing required --sid PATH".to_owned());
        }
        let server = match state.address {
            Some(address) => address,
            None => {
                return Err("missing required --server ADDR".to_owned());
            },
        };
        Ok(
            ClientOptions {
                sid_paths: state.sid_paths,
                server,
                resource_path: chosen_path(state.resource_path),
                help: false,
            },
        )
    }
}

proof fn lemma_data_option_texts()
    ensures
        "--sid"@.len() == 5,
        "--data"@.len() == 6,
        "--data"@[2] == 'd',
        "--bind"@.len() == 6,
        "--bind"@[2] == 'b',
        "--path"@.len() == 6,
        "--path"@[2] == 'p',
        "--help"@.len() == 6,
        "--help"@[2] == 'h',
        "--server"@.len() == 8,
        "--endpoint"@.len() == 10,
        "-h"@.len() == 2,
        "-"@ =~= seq!['-'],
{
    reveal_strlit("--sid");
    reveal_strlit("--data");
    reveal_strlit("--bind");
    reveal_strlit("--path");
    reveal_strlit("--help");
    reveal_strlit("--server");
    reveal_strlit("--endpoint");
    reveal_strlit("-h");
    reveal_strlit("-");
}

/// A server's option with a value changes what it names, to that value, and
/// nothing else; models add up, and an address has to be a socket address.
pub proof fn server_options_set_what_they_name(
    held: DataView,
    value: Seq<char>,
    address: Result<(), Seq<char>>,
)
    ensures
        server_with(held, "--sid"@, value, address) == Ok::<DataView, Seq<char>>(
            (DataView { sid_paths: held.sid_paths.push(value), ..held }),
        ),
        server_with(held, "--data"@, value, address) == Ok::<DataView, Seq<char>>(
            (DataView { data_path: Some(value), ..held }),
        ),
        server_with(held, "--path"@, value, address) == Ok::<DataView, Seq<char>>(
            (DataView { resource_path: Some(value), ..held }),
        ),
        address is Ok ==> server_with(held, "--bind"@, value, address) == Ok::<
            DataView,
            Seq<char>,
        >((DataView { address: Some(value), ..held })),
        address is Err ==> server_with(held, "--bind"@, value, address) is Err,
{
    lemma_data_option_texts();
}

/// A client's option with a value changes what it names, to that value, and
/// nothing else; models add up, and an address has to be a socket address.
pub proof fn client_options_set_what_they_name(
    held: DataView,
    value: Seq<char>,
    address: Result<(), Seq<char>>,
)
    ensures
        client_with(held, "--sid"@, value, address) == Ok::<DataView, Seq<char>>(
            (DataView { sid_paths: held.sid_paths.push(value), ..held }),
        ),
        client_with(held, "--path"@, value, address) == Ok::<DataView, Seq<char>>(
            (DataView { resource_path: Some(value), ..held }),
        ),
        address is Ok ==> client_with(held, "--server"@, value, address) == Ok::<
            DataView,
            Seq<char>,
        >((DataView { address: Some(value), ..held })) && client_with(
            held,
            "--endpoint"@,
            value,
            address,
        ) == Ok::<DataView, Seq<char>>((DataView { address: Some(value), ..held })),
        address is Err ==> client_with(held, "--server"@, value, address) is Err && client_with(
            held,
            "--endpoint"@,
            value,
            address,
        ) is Err,
{
    lemma_data_option_texts();
}

/// A server's command line is read from its start. An option takes the
/// argument behind it, which may not begin with a hyphen, and all but the
/// models may be given once.
pub proof fn server_arguments_are_read_in_order(
    list: Seq<Seq<char>>,
    addresses: Seq<Result<(), Seq<char>>>,
    at: int,
    held: DataView,
)
    requires
        0 <= at < list.len(),
    ensures
        ({
            let option = list[at] == "--sid"@ || list[at] == "--data"@ || list[at] == "--bind"@
                || list[at] == "--path"@;
            let again = (list[at] == "--data"@ && held.data_path is Some) || (list[at] == "--bind"@
                && held.address is Some) || (list[at] == "--path"@ && held.resource_path is Some);
            let value = at + 1 < list.len() && !(list[at + 1].len() > 0 && list[at + 1][0] == '-');
            let next = server_with(held, list[at], list[at + 1], addresses[at + 1]);
            &&& option && (again || !value) ==> server_from(list, addresses, at, held) is Err
            &&& option && !again && value && next is Ok ==> server_from(list, addresses, at, held)
                == server_from(list, addresses, at + 2, next->Ok_0)
            &&& option && !again && value && next is Err ==> server_from(
                list,
                addresses,
                at,
                held,
            ) is Err
            &&& list[at] == "-h"@ || list[at] == "--help"@ ==> server_from(
                list,
                addresses,
                at,
                held,
            ) == server_from(list, addresses, at + 1, (DataView { help: true, ..held }))
            &&& !option && list[at] != "-h"@ && list[at] != "--help"@ ==> server_from(
                list,
                addresses,
                at,
                held,
            ) is Err
            &&& server_from(list, addresses, list.len() as int, held) == Ok::<
                DataView,
                Seq<char>,
            >(held)
        }),
{
    lemma_data_option_texts();
    if at + 1 < list.len() {
        let next = list[at + 1];
        assert("-"@.is_prefix_of(next) <==> (next.len() > 0 && next[0] == '-')) by {
            if next.len() > 0 && next[0] == '-' {
                assert(next.subrange(0, 1) =~= "-"@);
            }
            if "-"@.is_prefix_of(next) {
                assert("-"@[0] == next[0]);
            }
        }
    }
}

/// A client's command line is read from its start, and an option takes the
/// argument behind it.
pub proof fn client_arguments_are_read_in_order(
    list: Seq<Seq<char>>,
    addresses: Seq<Result<(), Seq<char>>>,
    at: int,
    held: DataView,
)
    requires
        0 <= at < list.len(),
    ensures
        ({
            let option = list[at] == "--sid"@ || list[at] == "--server"@ || list[at]
                == "--endpoint"@ || list[at] == "--path"@;
            let next = client_with(held, list[at], list[at + 1], addresses[at + 1]);
            &&& option && at + 1 == list.len() ==> client_from(list, addresses, at, held) is Err
            &&& option && at + 1 < list.len() && next is Ok ==> client_from(
                list,
                addresses,
                at,
                held,
            ) == client_from(list, addresses, at + 2, next->Ok_0)
            &&& option && at + 1 < list.len() && next is Err ==> client_from(
                list,
                addresses,
                at,
                held,
            ) is Err
            &&& list[at] == "-h"@ || list[at] == "--help"@ ==> client_from(
                list,
                addresses,
                at,
                held,
            ) == client_from(list, addresses, at + 1, (DataView { help: true, ..held }))
            &&& !option && list[at] != "-h"@ && list[at] != "--help"@ ==> client_from(
                list,
                addresses,
                at,
                held,
            ) is Err
            &&& client_from(list, addresses, list.len() as int, held) == Ok::<
                DataView,
                Seq<char>,
            >(held)
        }),
{
    lemma_data_option_texts();
}

/// A server that does not show its usage has a model, a data path and an
/// address, those that were given; its resource is `c` where none was given.
pub proof fn accepted_server_is_complete(
    list: Seq<Seq<char>>,
    addresses: Seq<Result<(), Seq<char>>>,
)
    requires
        server_options(list, addresses) is Ok,
    ensures
        ({
            let server = server_options(list, addresses)->Ok_0;
            let held = server_from(list, addresses, 0, no_data_options())->Ok_0;
            &&& server_from(list, addresses, 0, no_data_options()) is Ok
            &&& server.help == held.help
            &&& server.sid_paths == held.sid_paths
            &&& held.resource_path is Some ==> server.resource_path == held.resource_path->0
            &&& held.resource_path is None ==> server.resource_path == "c"@
            &&& !server.help ==> held.sid_paths.len() > 0 && held.data_path == Some(
                server.data_path,
            ) && held.address == Some(server.bind)
        }),
{
}

/// A client that does not show its usage has a model and the address of a
/// server, those that were given; its resource is `c` where none was given.
pub proof fn accepted_client_is_complete(
    list: Seq<Seq<char>>,
    addresses: Seq<Result<(), Seq<char>>>,
)
    requires
        client_options(list, addresses) is Ok,
    ensures
        ({
            let client = client_options(list, addresses)->Ok_0;
            let held = client_from(list, addresses, 0, no_data_options())->Ok_0;
            &&& client_from(list, addresses, 0, no_data_options()) is Ok
            &&& client.help == held.help
            &&& client.sid_paths == held.sid_paths
            &&& held.resource_path is Some ==> client.resource_path == held.resource_path->0
            &&& held.resource_path is None ==> client.resource_path == "c"@
            &&& !client.help ==> held.sid_paths.len() > 0 && held.address == Some(client.server)
        }),
{
}

/// A complete server or client is accepted.
pub proof fn complete_options_are_accepted(
    list: Seq<Seq<char>>,
    addresses: Seq<Result<(), Seq<char>>>,
)
    ensures
        server_from(list, addresses, 0, no_data_options()) matches Ok(held) ==> (
        server_options(list, addresses) is Ok <==> held.help || (held.sid_paths.len() > 0
            && held.data_path is Some && held.address is Some)),
        client_from(list, addresses, 0, no_data_options()) matches Ok(held) ==> (
        client_options(list, addresses) is Ok <==> held.help || (held.sid_paths.len() > 0
            && held.address is Some)),
        no_data_options().sid_paths.len() == 0,
        no_data_options().data_path is None,
        no_data_options().address is None,
        no_data_options().resource_path is None,
        !no_data_options().help,
{
}

} // verus!
