//! Command lines: commands, the configuration file option, and the values of
//! options.

use crate::daemon::{daemon_error_words, DaemonConfigError, DaemonErrorModel};
use crate::downstream::{error_words, DownstreamConfigError, DownstreamErrorModel};
use crate::driad::{DriadError, DriadErrorModel};
use crate::net::{AddressText, IpAddr, SocketAddr};
use crate::random::RandomnessError;
use crate::text::{number_up_to, parse_number, same_text};
use crate::wording::driad_words;
use vstd::prelude::*;
use vstd::utf8::encode_utf8;

verus! {

/// Why a command line cannot be followed.
#[derive(Debug, PartialEq, Eq)]
#[allow(inconsistent_fields)]
pub enum CliError {
    /// What is wrong, in words.
    Message(String),
    UnknownRelayArgument(String),
    UnknownGatewayArgument(String),
    Downstream(DownstreamConfigError),
    Daemon(DaemonConfigError),
    /// The system's resolvers could not be had.
    SystemResolvers(DriadError),
    ResolverConfig(DriadError),
    Randomness(RandomnessError),
}

/// A [`CliError`] with its texts as sequences.
#[allow(inconsistent_fields)]
pub enum CliErrorModel {
    Message(Seq<char>),
    UnknownRelayArgument(Seq<char>),
    UnknownGatewayArgument(Seq<char>),
    Downstream(DownstreamErrorModel),
    Daemon(DaemonErrorModel),
    SystemResolvers(DriadErrorModel),
    ResolverConfig(DriadErrorModel),
    Randomness,
}

impl View for CliError {
    type V = CliErrorModel;

    open spec fn view(&self) -> CliErrorModel {
        match *self {
            CliError::Message(text) => CliErrorModel::Message(text@),
            CliError::UnknownRelayArgument(text) => CliErrorModel::UnknownRelayArgument(text@),
            CliError::UnknownGatewayArgument(text) => CliErrorModel::UnknownGatewayArgument(text@),
            CliError::Downstream(error) => CliErrorModel::Downstream(error@),
            CliError::Daemon(error) => CliErrorModel::Daemon(error@),
            CliError::SystemResolvers(error) => CliErrorModel::SystemResolvers(error@),
            CliError::ResolverConfig(error) => CliErrorModel::ResolverConfig(error@),
            CliError::Randomness(_) => CliErrorModel::Randomness,
        }
    }
}

/// A text in single quotes behind another.
pub open spec fn quoted(before: Seq<char>, text: Seq<char>) -> Seq<char> {
    before + "'"@ + text + "'"@
}

/// A text in single quotes behind another.
pub fn quote(before: &str, text: &str) -> (whole: String)
    ensures
        whole@ == quoted(before@, text@),
{
    before.to_owned().concat("'").concat(text).concat("'")
}

impl CliError {
    /// The error in words.
    pub fn message(&self) -> (text: String)
        ensures
            text@ == match *self {
                CliError::Message(text) => text@,
                CliError::UnknownRelayArgument(text) => quoted("unknown relay argument "@, text@),
                CliError::UnknownGatewayArgument(text) => quoted(
                    "unknown gateway argument "@,
                    text@,
                ),
                CliError::Downstream(error) => error_words(error),
                CliError::Daemon(error) => daemon_error_words(error),
                CliError::SystemResolvers(error) => {
                    "failed to load system DNS resolvers for DRIAD: "@ + driad_words(error)
                },
                CliError::ResolverConfig(error) => {
                    "invalid DRIAD resolver configuration: "@ + driad_words(error)
                },
                CliError::Randomness(error) => error.message@,
            },
    {
        match self {
            CliError::Message(text) => text.clone(),
            CliError::UnknownRelayArgument(text) => quote("unknown relay argument ", text.as_str()),
            CliError::UnknownGatewayArgument(text) => quote(
                "unknown gateway argument ",
                text.as_str(),
            ),
            CliError::Downstream(error) => error.message(),
            CliError::Daemon(error) => error.message(),
            CliError::SystemResolvers(error) => {
                "failed to load system DNS resolvers for DRIAD: ".to_string().concat(
                    error.message().as_str(),
                )
            },
            CliError::ResolverConfig(error) => {
                "invalid DRIAD resolver configuration: ".to_string().concat(
                    error.message().as_str(),
                )
            },
            CliError::Randomness(error) => error.message.clone(),
        }
    }
}

/// A result in terms of what it says.
pub open spec fn said<T>(result: Result<T, CliError>) -> Result<T, CliErrorModel> {
    match result {
        Ok(value) => Ok(value),
        Err(error) => Err(error@),
    }
}

/// An error in words.
pub open spec fn words<T>(text: Seq<char>) -> Result<T, CliErrorModel> {
    Err(CliErrorModel::Message(text))
}

/// An error in words.
pub fn say(text: &str) -> (error: CliError)
    ensures
        error@ == CliErrorModel::Message(text@),
{
    CliError::Message(text.to_owned())
}

/// What the first argument asks for.
#[derive(Debug, Clone, Copy, PartialEq, Eq, Structural)]
pub enum Command {
    Usage,
    Relay,
    Gateway,
    Unknown,
}

/// What the first argument asks for.
pub open spec fn command_of(first: Option<Seq<char>>) -> Command {
    match first {
        None => Command::Usage,
        Some(text) => if text == "relay"@ {
            Command::Relay
        } else if text == "gateway"@ {
            Command::Gateway
        } else if text == "-h"@ || text == "--help"@ || text == "help"@ {
            Command::Usage
        } else {
            Command::Unknown
        },
    }
}

/// What the first argument asks for.
pub fn parse_command(args: &Vec<String>) -> (command: Command)
    ensures
        command == command_of(
            if args@.len() > 0 {
                Some(args@[0]@)
            } else {
                None
            },
        ),
{
    if args.len() == 0 {
        return Command::Usage;
    }
    let first: &str = args[0].as_str();
    if same_text(first, "relay") {
        Command::Relay
    } else if same_text(first, "gateway") {
        Command::Gateway
    } else if same_text(first, "-h") || same_text(first, "--help") || same_text(first, "help") {
        Command::Usage
    } else {
        Command::Unknown
    }
}

/// The path of a configuration file, and the other arguments.
#[verifier::ext_equal]
pub struct SplitModel {
    pub path: Option<Seq<char>>,
    pub rest: Seq<Seq<char>>,
}

/// Arguments from a place on, split.
pub open spec fn split_from(split: SplitModel, args: Seq<String>, i: int) -> Result<
    SplitModel,
    CliErrorModel,
>
    decreases args.len() - i,
{
    if i < 0 || i >= args.len() {
        Ok(split)
    } else {
        let arg = args[i]@;
        if arg == "--config"@ {
            if i + 1 >= args.len() {
                words("--config requires a TOML file path"@)
            } else if split.path is Some {
                words("--config may only be provided once"@)
            } else {
                split_from(SplitModel { path: Some(args[i + 1]@), ..split }, args, i + 2)
            }
        } else if arg.len() >= 9 && arg.subrange(0, 9) == "--config="@ {
            if arg.len() == 9 {
                words("--config requires a TOML file path"@)
            } else if split.path is Some {
                words("--config may only be provided once"@)
            } else {
                split_from(
                    SplitModel { path: Some(arg.subrange(9, arg.len() as int)), ..split },
                    args,
                    i + 1,
                )
            }
        } else {
            split_from(SplitModel { rest: split.rest.push(arg), ..split }, args, i + 1)
        }
    }
}

/// The path of a configuration file, and the other arguments.
pub fn split_config_arg(args: &Vec<String>) -> (result: Result<
    (Option<String>, Vec<String>),
    CliError,
>)
    ensures
        match result {
            Ok((path, rest)) => split_from(
                SplitModel { path: None, rest: Seq::empty() },
                args@,
                0,
            ) == Ok::<SplitModel, CliErrorModel>(
                SplitModel {
                    path: match path {
                        Some(path) => Some(path@),
                        None => None,
                    },
                    rest: crate::driad::texts(rest@),
                },
            ),
            Err(error) => split_from(
                SplitModel { path: None, rest: Seq::empty() },
                args@,
                0,
            ) == Err::<SplitModel, CliErrorModel>(error@),
        },
{
    let ghost start = SplitModel { path: None, rest: Seq::empty() };
    let mut path: Option<String> = None;
    let mut rest: Vec<String> = Vec::new();
    let length: usize = args.len();
    let mut i: usize = 0;
    proof {
        assert(crate::driad::texts(rest@) =~= Seq::empty());
    }
    while i < length
        invariant
            length == args@.len(),
            i <= length,
            start == (SplitModel { path: None, rest: Seq::empty() }),
            split_from(start, args@, 0) == split_from(
                SplitModel {
                    path: match path {
                        Some(path) => Some(path@),
                        None => None,
                    },
                    rest: crate::driad::texts(rest@),
                },
                args@,
                i as int,
            ),
        decreases length - i,
    {
        let arg: &str = args[i].as_str();
        if same_text(arg, "--config") {
            if length - i < 2 {
                return Err(say("--config requires a TOML file path"));
            }
            if path.is_some() {
                return Err(say("--config may only be provided once"));
            }
            path = Some(args[i + 1].clone());
            i += 2;
        } else {
            let count: usize = arg.unicode_len();
            if count >= 9 && same_text(arg.substring_char(0, 9), "--config=") {
                if count == 9 {
                    return Err(say("--config requires a TOML file path"));
                }
                if path.is_some() {
                    return Err(say("--config may only be provided once"));
                }
                path = Some(arg.substring_char(9, count).to_owned());
            } else {
                let ghost before = rest@;
                rest.push(args[i].clone());
                proof {
                    assert(crate::driad::texts(rest@) =~= crate::driad::texts(before).push(arg@));
                }
            }
            i += 1;
        }
    }
    Ok((path, rest))
}

/// An argument by itself.
pub open spec fn owned(value: Option<&AddressText>) -> Option<AddressText> {
    match value {
        Some(value) => Some(*value),
        None => None,
    }
}

/// The value of an option that takes a socket address.
pub open spec fn socket_value(
    value: Option<AddressText>,
    missing: Seq<char>,
    invalid: Seq<char>,
) -> Result<SocketAddr, CliErrorModel> {
    match value {
        None => words(missing),
        Some(value) => match value.socket {
            Some(socket) => Ok(socket),
            None => words(quoted(invalid, value.text@)),
        },
    }
}

/// The value of an option that takes a socket address.
pub fn read_socket(value: Option<&AddressText>, missing: &str, invalid: &str) -> (result: Result<
    SocketAddr,
    CliError,
>)
    ensures
        said(result) == socket_value(owned(value), missing@, invalid@),
{
    match value {
        None => Err(say(missing)),
        Some(value) => match value.socket {
            Some(socket) => Ok(socket),
            None => Err(CliError::Message(quote(invalid, value.text.as_str()))),
        },
    }
}

/// The value of an option that takes an IP address.
pub open spec fn ip_value(
    value: Option<AddressText>,
    missing: Seq<char>,
    invalid: Seq<char>,
) -> Result<IpAddr, CliErrorModel> {
    match value {
        None => words(missing),
        Some(value) => match value.ip {
            Some(ip) => Ok(ip),
            None => words(quoted(invalid, value.text@)),
        },
    }
}

/// The value of an option that takes an IP address.
pub fn read_ip(value: Option<&AddressText>, missing: &str, invalid: &str) -> (result: Result<
    IpAddr,
    CliError,
>)
    ensures
        said(result) == ip_value(owned(value), missing@, invalid@),
{
    match value {
        None => Err(say(missing)),
        Some(value) => match value.ip {
            Some(ip) => Ok(ip),
            None => Err(CliError::Message(quote(invalid, value.text.as_str()))),
        },
    }
}

/// The value of an option that takes a number up to `max`.
pub open spec fn number_value(
    value: Option<AddressText>,
    missing: Seq<char>,
    invalid: Seq<char>,
    max: u64,
) -> Result<u64, CliErrorModel> {
    match value {
        None => words(missing),
        Some(value) => match number_up_to(encode_utf8(value.text@), max as nat) {
            Some(number) => Ok(number as u64),
            None => words(quoted(invalid, value.text@)),
        },
    }
}

/// The value of an option that takes a number up to `max`.
pub fn read_number(value: Option<&AddressText>, missing: &str, invalid: &str, max: u64) -> (result:
    Result<u64, CliError>)
    ensures
        said(result) == number_value(owned(value), missing@, invalid@, max),
        result matches Ok(number) ==> number <= max,
{
    match value {
        None => Err(say(missing)),
        Some(value) => match parse_number(value.text.as_str(), max) {
            Some(number) => Ok(number),
            None => Err(CliError::Message(quote(invalid, value.text.as_str()))),
        },
    }
}

/// The value of an option that takes a number from one to `max`.
pub open spec fn positive_value(
    value: Option<AddressText>,
    missing: Seq<char>,
    invalid: Seq<char>,
    zero: Seq<char>,
    max: u64,
) -> Result<u64, CliErrorModel> {
    match number_value(value, missing, invalid, max) {
        Err(error) => Err(error),
        Ok(number) => if number == 0 {
            words(zero)
        } else {
            Ok(number)
        },
    }
}

/// The value of an option that takes a number from one to `max`.
pub fn read_positive(
    value: Option<&AddressText>,
    missing: &str,
    invalid: &str,
    zero: &str,
    max: u64,
) -> (result: Result<u64, CliError>)
    ensures
        said(result) == positive_value(owned(value), missing@, invalid@, zero@, max),
        result matches Ok(number) ==> 0 < number <= max,
{
    match read_number(value, missing, invalid, max) {
        Err(error) => Err(error),
        Ok(number) => if number == 0 {
            Err(say(zero))
        } else {
            Ok(number)
        },
    }
}

/// The value of the named option, which takes a number from one to `max`.
pub open spec fn nonzero_value(value: Option<AddressText>, option: Seq<char>, max: u64) -> Result<
    u64,
    CliErrorModel,
> {
    positive_value(
        value,
        option + " requires a positive integer"@,
        "invalid "@ + option + " value "@,
        option + " must not be 0"@,
        max,
    )
}

/// The value of the named option, which takes a number from one to `max`.
pub fn parse_nonzero(value: Option<&AddressText>, option: &str, max: u64) -> (result: Result<
    u64,
    CliError,
>)
    ensures
        said(result) == nonzero_value(owned(value), option@, max),
        result matches Ok(number) ==> 0 < number <= max,
{
    let missing = option.to_owned().concat(" requires a positive integer");
    let invalid = "invalid ".to_string().concat(option).concat(" value ");
    let zero = option.to_owned().concat(" must not be 0");
    read_positive(value, missing.as_str(), invalid.as_str(), zero.as_str(), max)
}

/// The value of an option that takes any text.
pub open spec fn text_value(value: Option<AddressText>, missing: Seq<char>) -> Result<
    Seq<char>,
    CliErrorModel,
> {
    match value {
        None => words(missing),
        Some(value) => Ok(value.text@),
    }
}

/// The value of an option that takes any text.
pub fn read_text(value: Option<&AddressText>, missing: &str) -> (result: Result<String, CliError>)
    ensures
        match result {
            Ok(text) => text_value(owned(value), missing@) == Ok::<Seq<char>, CliErrorModel>(text@),
            Err(error) => text_value(owned(value), missing@) == Err::<Seq<char>, CliErrorModel>(error@),
        },
{
    match value {
        None => Err(say(missing)),
        Some(value) => Ok(value.text.clone()),
    }
}

/// What an argument did.
#[derive(Debug, Clone, Copy, PartialEq, Eq, Structural)]
pub enum Stepped {
    /// It stood alone.
    Flag,
    /// It took the next argument as its value.
    Valued,
    /// It asks for help.
    Help,
}

/// The first argument tells what is to run, by name; without one, or where it asks
/// for help, the usage is told.
pub proof fn law_commands_are_told_by_name(text: Seq<char>)
    ensures
        command_of(None) is Usage,
        command_of(Some(text)) is Relay <==> text == "relay"@,
        command_of(Some(text)) is Gateway <==> text == "gateway"@,
        command_of(Some(text)) is Usage <==> text == "-h"@ || text == "--help"@ || text == "help"@,
{
    reveal_strlit("relay");
    reveal_strlit("gateway");
    reveal_strlit("-h");
    reveal_strlit("--help");
    reveal_strlit("help");
    assert("relay"@.len() == 5 && "gateway"@.len() == 7 && "-h"@.len() == 2 && "--help"@.len() == 6
        && "help"@.len() == 4);
}

/// Whether an argument names no configuration file.
pub open spec fn plain_argument(arg: Seq<char>) -> bool {
    arg != "--config"@ && !"--config="@.is_prefix_of(arg)
}

proof fn lemma_plain_arguments_pass(split: SplitModel, args: Seq<String>, i: int, k: int)
    requires
        0 <= i <= k <= args.len(),
        forall|j: int| i <= j < k ==> plain_argument((#[trigger] args[j])@),
    ensures
        split_from(split, args, i) == split_from(
            SplitModel {
                rest: split.rest + Seq::new((k - i) as nat, |j: int| args[i + j]@),
                ..split
            },
            args,
            k,
        ),
    decreases k - i,
{
    reveal_strlit("--config=");
    let added = Seq::new((k - i) as nat, |j: int| args[i + j]@);
    if i == k {
        assert(split.rest + added =~= split.rest);
    } else {
        let arg = args[i]@;
        assert(plain_argument(arg));
        assert("--config="@.len() == 9);
        if arg.len() >= 9 && arg.subrange(0, 9) == "--config="@ {
            assert("--config="@.is_prefix_of(arg));
        }
        let next = SplitModel { rest: split.rest.push(arg), ..split };
        lemma_plain_arguments_pass(next, args, i + 1, k);
        assert(next.rest + Seq::new((k - i - 1) as nat, |j: int| args[i + 1 + j]@) =~= split.rest
            + added);
    }
}

/// Arguments among which no configuration file is named are all kept, in their
/// order.
pub proof fn law_plain_arguments_are_kept(args: Seq<String>)
    requires
        forall|j: int| 0 <= j < args.len() ==> plain_argument((#[trigger] args[j])@),
    ensures
        ({
            let split = split_from(SplitModel { path: None, rest: Seq::empty() }, args, 0);
            &&& split is Ok && split->Ok_0.path is None
            &&& split->Ok_0.rest.len() == args.len()
            &&& forall|j: int|
                0 <= j < args.len() ==> (#[trigger] split->Ok_0.rest[j]) == args[j]@
        }),
{
    lemma_plain_arguments_pass(
        SplitModel { path: None, rest: Seq::empty() },
        args,
        0,
        args.len() as int,
    );
}

/// The one configuration file that arguments name is found wherever it stands,
/// behind `--config` or with it, and the other arguments are kept in their order.
/// A name that is missing is refused, and so is a second file.
pub proof fn law_one_file_is_named(args: Seq<String>, k: int, m: int)
    requires
        0 <= k < args.len(),
        !plain_argument(args[k]@),
        forall|j: int| 0 <= j < k ==> plain_argument((#[trigger] args[j])@),
        m == if args[k]@ == "--config"@ {
            k + 2
        } else {
            k + 1
        },
    ensures
        ({
            let split = split_from(SplitModel { path: None, rest: Seq::empty() }, args, 0);
            let others = forall|j: int| m <= j < args.len() ==> plain_argument((#[trigger] args[j])@);
            &&& m > args.len() || args[k]@ == "--config="@ ==> split is Err
            &&& m <= args.len() && args[k]@ != "--config="@ ==> {
                &&& split is Ok <==> others
                &&& others ==> {
                    &&& split->Ok_0.path is Some
                    &&& args[k]@ == "--config"@ ==> split->Ok_0.path->Some_0 == args[k + 1]@
                    &&& args[k]@ != "--config"@ ==> "--config="@ + split->Ok_0.path->Some_0
                        == args[k]@
                    &&& split->Ok_0.rest.len() == k + args.len() - m
                    &&& forall|j: int|
                        0 <= j < k ==> (#[trigger] split->Ok_0.rest[j]) == args[j]@
                    &&& forall|j: int|
                        m <= j < args.len() ==> split->Ok_0.rest[k + j - m] == (#[trigger] args[j])@
                }
            }
        }),
{
    reveal_strlit("--config=");
    reveal_strlit("--config");
    assert("--config="@.len() == 9 && "--config"@.len() == 8);
    let n = args.len() as int;
    let arg = args[k]@;
    let first = SplitModel { path: None, rest: Seq::empty() };
    lemma_plain_arguments_pass(first, args, 0, k);
    let at = SplitModel { path: None, rest: first.rest + Seq::new(k as nat, |j: int| args[0 + j]@) };
    if arg != "--config"@ {
        assert("--config="@.is_prefix_of(arg));
        assert(arg.subrange(0, 9) =~= "--config="@);
        if arg.len() == 9 {
            assert(arg =~= "--config="@);
        } else {
            assert("--config="@ + arg.subrange(9, arg.len() as int) =~= arg);
        }
    }
    if m <= n && arg != "--config="@ {
        let path = if arg == "--config"@ {
            args[k + 1]@
        } else {
            arg.subrange(9, arg.len() as int)
        };
        let found = SplitModel { path: Some(path), ..at };
        assert(split_from(at, args, k) == split_from(found, args, m));
        if forall|j: int| m <= j < n ==> plain_argument((#[trigger] args[j])@) {
            lemma_plain_arguments_pass(found, args, m, n);
            let rest = found.rest + Seq::new((n - m) as nat, |j: int| args[m + j]@);
            assert forall|j: int| m <= j < n implies rest[k + j - m] == (#[trigger] args[j])@ by {
                assert(m + (j - m) == j);
            }
        } else {
            lemma_second_files_are_refused(found, args, m);
        }
    }
}

proof fn lemma_second_files_are_refused(split: SplitModel, args: Seq<String>, i: int)
    requires
        0 <= i,
        split.path is Some,
        exists|j: int| i <= j < args.len() && !plain_argument((#[trigger] args[j])@),
    ensures
        split_from(split, args, i) is Err,
    decreases args.len() - i,
{
    reveal_strlit("--config=");
    let j = choose|j: int| i <= j < args.len() && !plain_argument((#[trigger] args[j])@);
    let arg = args[i]@;
    assert("--config="@.len() == 9);
    if plain_argument(arg) {
        if arg.len() >= 9 && arg.subrange(0, 9) == "--config="@ {
            assert("--config="@.is_prefix_of(arg));
        }
        assert(i + 1 <= j);
        lemma_second_files_are_refused(
            SplitModel { rest: split.rest.push(arg), ..split },
            args,
            i + 1,
        );
    } else if arg != "--config"@ {
        assert(arg.subrange(0, 9) =~= "--config="@);
    }
}

} // verus!
