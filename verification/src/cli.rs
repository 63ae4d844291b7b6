use crate::argv::{
    as_held, first_position, held, is_long_key, lemma_first_position, lemma_first_position_held,
    lemma_held_alike, lemma_remove_held, parser_of, rest_of, take_flag, take_value,
};
use crate::text::{digits_of, is_dashed, push_decimal, starts_with_dash};
use pico_args::Arguments;
use vstd::prelude::*;
use vstd::string::*;

verus! {

/// The flag that asks for an optimised build.
pub const RELEASE: &'static str = "--release";

/// The flag that says that the unit is an example, not a package.
pub const EXAMPLE: &'static str = "--example";

/// The flag that ends the run once the site is staged.
pub const BUILD_ONLY: &'static str = "--build-only";

/// The option whose value is the list of features, separated by commas.
pub const FEATURES: &'static str = "--features";

/// The option whose value is the host to serve on.
pub const HOST: &'static str = "--host";

/// The option whose value is the port to serve on.
pub const PORT: &'static str = "--port";

/// The three options that take a value.
#[derive(Clone, Copy, Debug, PartialEq, Eq, Structural)]
pub enum ValueOption {
    Features,
    Host,
    Port,
}

impl ValueOption {
    /// The key under which the option stands on the command line.
    pub open spec fn key(self) -> Seq<char> {
        match self {
            ValueOption::Features => FEATURES@,
            ValueOption::Host => HOST@,
            ValueOption::Port => PORT@,
        }
    }
}

/// `line` without the first token equal to `key`, if there is one.
pub open spec fn without_flag(line: Seq<Seq<char>>, key: Seq<char>) -> Seq<Seq<char>> {
    match first_position(line, key) {
        Some(i) => line.remove(i),
        None => line,
    }
}

/// The first token equal to `key` is the last token of `line`: the option has
/// no value.
pub open spec fn lacks_value(line: Seq<Seq<char>>, key: Seq<char>) -> bool {
    first_position(line, key) matches Some(i) && i + 1 == line.len()
}

/// The token that follows the first token equal to `key`.
pub open spec fn value_of(line: Seq<Seq<char>>, key: Seq<char>) -> Option<Seq<char>> {
    match first_position(line, key) {
        Some(i) => if i + 1 < line.len() {
            Some(line[i + 1])
        } else {
            None
        },
        None => None,
    }
}

/// `line` without the first token equal to `key` and the token that follows
/// it. Where nothing follows, or no token equals `key`, `line` itself.
pub open spec fn without_option(line: Seq<Seq<char>>, key: Seq<char>) -> Seq<Seq<char>> {
    match first_position(line, key) {
        Some(i) => if i + 1 < line.len() {
            line.remove(i).remove(i)
        } else {
            line
        },
        None => line,
    }
}

/// The tokens that are left once the three flags have been taken out, each at
/// its first place.
pub open spec fn after_flags(line: Seq<Seq<char>>) -> Seq<Seq<char>> {
    without_flag(without_flag(without_flag(line, RELEASE@), EXAMPLE@), BUILD_ONLY@)
}

/// The tokens that are left once the feature list has been taken out as well.
pub open spec fn after_features(line: Seq<Seq<char>>) -> Seq<Seq<char>> {
    without_option(after_flags(line), FEATURES@)
}

/// The tokens that are left once the host has been taken out as well.
pub open spec fn after_host(line: Seq<Seq<char>>) -> Seq<Seq<char>> {
    without_option(after_features(line), HOST@)
}

/// The tokens that no flag and no option accounts for.
pub open spec fn free_tokens(line: Seq<Seq<char>>) -> Seq<Seq<char>> {
    without_option(after_host(line), PORT@)
}

/// The first of the three options, in the order features, host, port, that
/// stands on `line` without a value when its turn comes.
pub open spec fn unfinished_option(line: Seq<Seq<char>>) -> Option<ValueOption> {
    if lacks_value(after_flags(line), FEATURES@) {
        Some(ValueOption::Features)
    } else if lacks_value(after_features(line), HOST@) {
        Some(ValueOption::Host)
    } else if lacks_value(after_host(line), PORT@) {
        Some(ValueOption::Port)
    } else {
        None
    }
}

/// The least index of a token of `list` that begins with a dash.
pub open spec fn first_dashed(list: Seq<Seq<char>>) -> Option<int>
    decreases list.len(),
{
    if list.len() == 0 {
        None
    } else if is_dashed(list[0]) {
        Some(0)
    } else {
        match first_dashed(list.drop_first()) {
            Some(i) => Some(i + 1),
            None => None,
        }
    }
}

/// A configuration as plain values.
pub struct ArgsView {
    pub release: bool,
    pub example: bool,
    pub name: Seq<char>,
    pub features: Option<Seq<char>>,
    pub build_only: bool,
    pub host: Option<Seq<char>>,
    pub port: Option<Seq<char>>,
}

/// Why a command line gives no configuration, as plain values.
pub enum ConfigFault {
    UnknownOption(Seq<char>),
    MissingName,
    TooManyArgs(Seq<Seq<char>>),
    MalformedOption(ValueOption),
}

/// What a command line means. The flags are taken out first, then the feature
/// list, the host and the port, each with the token that follows it; an
/// option that nothing follows ends the resolution. Of what is left no token
/// may begin with a dash, and exactly one token must be left: the name. A
/// token that is empty names nothing, so a line that leaves it alone has no
/// name.
pub open spec fn resolve(line: Seq<Seq<char>>) -> Result<ArgsView, ConfigFault> {
    let rest = free_tokens(line);
    if let Some(option) = unfinished_option(line) {
        Err(ConfigFault::MalformedOption(option))
    } else if let Some(i) = first_dashed(rest) {
        Err(ConfigFault::UnknownOption(rest[i]))
    } else if rest.len() == 0 || (rest.len() == 1 && rest[0].len() == 0) {
        Err(ConfigFault::MissingName)
    } else if rest.len() == 1 {
        Ok(
            ArgsView {
                release: line.contains(RELEASE@),
                example: line.contains(EXAMPLE@),
                name: rest[0],
                features: value_of(after_flags(line), FEATURES@),
                build_only: line.contains(BUILD_ONLY@),
                host: value_of(after_features(line), HOST@),
                port: value_of(after_host(line), PORT@),
            },
        )
    } else {
        Err(ConfigFault::TooManyArgs(rest))
    }
}

/// Why a command line was turned down.
#[derive(Clone, Debug, PartialEq, Eq)]
pub enum ConfigError {
    /// A token that begins with a dash and that no flag or option accounts for.
    UnknownOption(String),
    /// No token is left for the name, or only an empty one.
    MissingName,
    /// More than one token is left; all of them are carried.
    TooManyArgs(Vec<String>),
    /// An option that takes a value stands last.
    MalformedOption(ValueOption),
}

impl View for ConfigError {
    type V = ConfigFault;

    open spec fn view(&self) -> ConfigFault {
        match self {
            ConfigError::UnknownOption(token) => ConfigFault::UnknownOption(token@),
            ConfigError::MissingName => ConfigFault::MissingName,
            ConfigError::TooManyArgs(tokens) => ConfigFault::TooManyArgs(tokens.deep_view()),
            ConfigError::MalformedOption(option) => ConfigFault::MalformedOption(*option),
        }
    }
}

/// What the `Debug` form of a list of strings reads.
pub uninterp spec fn debug_text(list: Seq<Seq<char>>) -> Seq<char>;

/// `format!` with `{:?}` on a list of strings: its `Debug` form.
#[verifier::external_body]
fn list_text(list: &Vec<String>) -> (text: String)
    ensures
        text@ == debug_text(list.deep_view()),
{
    format!("{:?}", list)
}

/// What is said of `count` tokens left over, which read `listed`.
pub open spec fn too_many_message(count: nat, listed: Seq<char>) -> Seq<char> {
    "Expected exactly one free arg, but there was "@ + digits_of(count) + " free args: "@
        + listed
}

/// What is said of `count` tokens left over, which read `listed`.
pub fn too_many_text(count: usize, listed: &str) -> (text: String)
    ensures
        text@ == too_many_message(count as nat, listed@),
{
    let mut text = String::from_str("Expected exactly one free arg, but there was ");
    push_decimal(&mut text, count);
    text.append(" free args: ");
    text.append(listed);
    text
}

impl ConfigFault {
    /// The one line that says what is wrong with the command line.
    pub open spec fn message(self) -> Seq<char> {
        match self {
            ConfigFault::UnknownOption(token) => "Unknown option "@ + token,
            ConfigFault::MissingName => "Expected NAME arg, but there was no NAME arg"@,
            ConfigFault::TooManyArgs(tokens) => too_many_message(
                tokens.len(),
                debug_text(tokens),
            ),
            ConfigFault::MalformedOption(option) => "Expected a value after "@ + option.key(),
        }
    }
}

/// The configuration of one run.
#[derive(Debug, PartialEq, Eq)]
pub struct Args {
    release: bool,
    example: bool,
    name: String,
    features: Option<String>,
    build_only: bool,
    host: Option<String>,
    port: Option<String>,
}

impl Args {
    /// The name is not empty and does not begin with a dash.
    #[verifier::type_invariant]
    spec fn is_named(self) -> bool {
        self.name@.len() > 0 && !is_dashed(self.name@)
    }
}

impl View for Args {
    type V = ArgsView;

    closed spec fn view(&self) -> ArgsView {
        ArgsView {
            release: self.release,
            example: self.example,
            name: self.name@,
            features: self.features.deep_view(),
            build_only: self.build_only,
            host: self.host.deep_view(),
            port: self.port.deep_view(),
        }
    }
}

/// The six keys are long keys, and each has a third character that no other
/// has: no two of them are the same.
pub proof fn lemma_keys()
    ensures
        is_long_key(RELEASE@),
        is_long_key(EXAMPLE@),
        is_long_key(BUILD_ONLY@),
        is_long_key(FEATURES@),
        is_long_key(HOST@),
        is_long_key(PORT@),
        RELEASE@[2] == 'r',
        EXAMPLE@[2] == 'e',
        BUILD_ONLY@[2] == 'b',
        FEATURES@[2] == 'f',
        HOST@[2] == 'h',
        PORT@[2] == 'p',
{
    reveal_strlit("--release");
    reveal_strlit("--example");
    reveal_strlit("--build-only");
    reveal_strlit("--features");
    reveal_strlit("--host");
    reveal_strlit("--port");
}

/// Taking one flag out leaves every other token where it was found before.
pub proof fn lemma_without_flag_contains(line: Seq<Seq<char>>, key: Seq<char>, other: Seq<char>)
    requires
        key != other,
    ensures
        without_flag(line, key).contains(other) == line.contains(other),
{
    lemma_first_position(line, key);
    match first_position(line, key) {
        Some(i) => {
            let rest = line.remove(i);
            if line.contains(other) {
                let j = choose|j: int| 0 <= j < line.len() && line[j] == other;
                if j < i {
                    assert(rest[j] == other);
                } else {
                    assert(rest[j - 1] == other);
                }
            }
            if rest.contains(other) {
                let j = choose|j: int| 0 <= j < rest.len() && rest[j] == other;
                if j < i {
                    assert(line[j] == other);
                } else {
                    assert(line[j + 1] == other);
                }
            }
        },
        None => {},
    }
}

/// What `first_dashed` finds is the least index of a token that begins with a
/// dash, and it finds nothing only where no token does.
pub proof fn lemma_first_dashed(list: Seq<Seq<char>>)
    ensures
        match first_dashed(list) {
            Some(i) => 0 <= i < list.len() && is_dashed(list[i]) && forall|j: int|
                0 <= j < i ==> !is_dashed(#[trigger] list[j]),
            None => forall|j: int| 0 <= j < list.len() ==> !is_dashed(#[trigger] list[j]),
        },
    decreases list.len(),
{
    if list.len() > 0 && !is_dashed(list[0]) {
        let tail = list.drop_first();
        lemma_first_dashed(tail);
        match first_dashed(tail) {
            Some(i) => {
                assert forall|j: int| 0 <= j < i + 1 implies !is_dashed(#[trigger] list[j]) by {
                    if j > 0 {
                        assert(tail[j - 1] == list[j]);
                    }
                }
            },
            None => {
                assert forall|j: int| 0 <= j < list.len() implies !is_dashed(
                    #[trigger] list[j],
                ) by {
                    if j > 0 {
                        assert(tail[j - 1] == list[j]);
                    }
                }
            },
        }
    }
}

/// A line on which every option has its value, and which leaves exactly one
/// token, which is not empty and does not begin with a dash, resolves, and
/// that token is the name.
pub proof fn lemma_one_name_resolves(line: Seq<Seq<char>>)
    requires
        unfinished_option(line) is None,
        free_tokens(line).len() == 1,
        free_tokens(line)[0].len() > 0,
        !is_dashed(free_tokens(line)[0]),
    ensures
        resolve(line) matches Ok(args) && args.name == free_tokens(line)[0],
{
    lemma_first_dashed(free_tokens(line));
}

/// A line on which every option has its value and no token is left, or an
/// empty one alone, resolves to a missing name; one that leaves two tokens or
/// more, none of which begins with a dash, to too many arguments, all of which
/// the error carries.
pub proof fn lemma_wrong_count_fails(line: Seq<Seq<char>>)
    requires
        unfinished_option(line) is None,
        free_tokens(line).len() != 1 || free_tokens(line)[0].len() == 0,
        forall|i: int|
            0 <= i < free_tokens(line).len() ==> !is_dashed(#[trigger] free_tokens(line)[i]),
    ensures
        free_tokens(line).len() <= 1 ==> resolve(line) == Err::<ArgsView, ConfigFault>(
            ConfigFault::MissingName,
        ),
        free_tokens(line).len() >= 2 ==> resolve(line) == Err::<ArgsView, ConfigFault>(
            ConfigFault::TooManyArgs(free_tokens(line)),
        ),
{
    lemma_first_dashed(free_tokens(line));
}

/// A line on which every option has its value, and which leaves a token that
/// begins with a dash, resolves to an unknown option: the first such token.
pub proof fn lemma_unknown_option_fails(line: Seq<Seq<char>>, i: int)
    requires
        unfinished_option(line) is None,
        0 <= i < free_tokens(line).len(),
        is_dashed(free_tokens(line)[i]),
    ensures
        first_dashed(free_tokens(line)) matches Some(k) && k <= i && is_dashed(
            free_tokens(line)[k],
        ) && resolve(line) == Err::<ArgsView, ConfigFault>(
            ConfigFault::UnknownOption(free_tokens(line)[k]),
        ),
{
    lemma_first_dashed(free_tokens(line));
}

/// A token that stands in a line with one token taken out stands in the line.
proof fn lemma_removed_keeps(line: Seq<Seq<char>>, i: int, token: Seq<char>)
    requires
        0 <= i < line.len(),
        line.remove(i).contains(token),
    ensures
        line.contains(token),
{
    let rest = line.remove(i);
    let j = choose|j: int| 0 <= j < rest.len() && rest[j] == token;
    if j < i {
        assert(line[j] == token);
    } else {
        assert(line[j + 1] == token);
    }
}

/// What is left of a line when a flag, or an option with its value, has been
/// taken out stood in the line before.
proof fn lemma_taken_keeps(line: Seq<Seq<char>>, key: Seq<char>, token: Seq<char>)
    ensures
        without_flag(line, key).contains(token) ==> line.contains(token),
        without_option(line, key).contains(token) ==> line.contains(token),
{
    lemma_first_position(line, key);
    if let Some(i) = first_position(line, key) {
        if without_flag(line, key).contains(token) {
            lemma_removed_keeps(line, i, token);
        }
        if i + 1 < line.len() && without_option(line, key).contains(token) {
            lemma_removed_keeps(line.remove(i), i, token);
            lemma_removed_keeps(line, i, token);
        }
    }
}

/// The name of a configuration is never empty, never begins with a dash, and
/// is one of the tokens of the line that it was resolved from.
pub proof fn lemma_name_is_a_token(line: Seq<Seq<char>>)
    ensures
        resolve(line) matches Ok(args) ==> args.name.len() > 0 && !is_dashed(args.name)
            && line.contains(args.name),
{
    if let Ok(args) = resolve(line) {
        let rest = free_tokens(line);
        lemma_first_dashed(rest);
        assert(rest[0] == args.name);
        assert(rest.contains(args.name));
        let first = without_flag(line, RELEASE@);
        let second = without_flag(first, EXAMPLE@);
        lemma_taken_keeps(after_host(line), PORT@, args.name);
        lemma_taken_keeps(after_features(line), HOST@, args.name);
        lemma_taken_keeps(after_flags(line), FEATURES@, args.name);
        lemma_taken_keeps(second, BUILD_ONLY@, args.name);
        lemma_taken_keeps(first, EXAMPLE@, args.name);
        lemma_taken_keeps(line, RELEASE@, args.name);
    }
}

/// Resolution is a function of the line: two results for the same line are the
/// same, a configuration or an error of the same kind with the same tokens.
pub proof fn lemma_resolution_is_determined(
    line: Seq<Seq<char>>,
    first: Result<ArgsView, ConfigFault>,
    second: Result<ArgsView, ConfigFault>,
)
    requires
        first == resolve(line),
        second == resolve(line),
    ensures
        first == second,
{
}

/// An option that stands without a value when its turn comes ends the
/// resolution, whatever else the line holds.
pub proof fn lemma_unfinished_option_fails(line: Seq<Seq<char>>)
    requires
        unfinished_option(line) is Some,
    ensures
        resolve(line) == Err::<ArgsView, ConfigFault>(
            ConfigFault::MalformedOption(unfinished_option(line)->0),
        ),
{
}

impl ValueOption {
    /// The key as the parser takes it.
    fn key_text(self) -> (key: &'static str)
        ensures
            key@ == self.key(),
            is_long_key(key@),
    {
        proof {
            lemma_keys();
        }
        match self {
            ValueOption::Features => FEATURES,
            ValueOption::Host => HOST,
            ValueOption::Port => PORT,
        }
    }
}

/// Takes the flag `key` out of a parser that holds `line`.
fn flag(args: &mut Arguments, key: &'static str, Ghost(line): Ghost<Seq<Seq<char>>>) -> (found:
    bool)
    requires
        held(*old(args)) == as_held(line),
        is_long_key(key@),
    ensures
        found == line.contains(key@),
        held(*final(args)) == as_held(without_flag(line, key@)),
{
    proof {
        lemma_first_position_held(line, key@);
        lemma_first_position(line, key@);
        if let Some(i) = first_position(line, key@) {
            lemma_remove_held(line, i);
        }
    }
    take_flag(args, key)
}

/// Takes `option` and its value out of a parser that holds `line`.
fn value(args: &mut Arguments, option: ValueOption, Ghost(line): Ghost<Seq<Seq<char>>>) -> (res:
    Result<Option<String>, ConfigError>)
    requires
        held(*old(args)) == as_held(line),
    ensures
        match res {
            Ok(found) => {
                &&& !lacks_value(line, option.key())
                &&& found.deep_view() == value_of(line, option.key())
                &&& held(*final(args)) == as_held(without_option(line, option.key()))
            },
            Err(e) => lacks_value(line, option.key()) && e@ == ConfigFault::MalformedOption(
                option,
            ),
        },
{
    let key = option.key_text();
    proof {
        lemma_first_position_held(line, key@);
        lemma_first_position(line, key@);
        if let Some(i) = first_position(line, key@) {
            if i + 1 < line.len() {
                lemma_remove_held(line, i);
                lemma_remove_held(line.remove(i), i);
            }
        }
    }
    match take_value(args, key) {
        Ok(found) => Ok(found),
        Err(_) => Err(ConfigError::MalformedOption(option)),
    }
}

impl Args {
    /// Resolves the arguments that the environment gave the process, the
    /// program's own name left out, into a configuration. The name of the
    /// configuration is one of the arguments; it is not empty and does not
    /// begin with a dash.
    pub fn from_env(raw: Vec<String>) -> (res: Result<Args, ConfigError>)
        ensures
            match res {
                Ok(args) => resolve(raw.deep_view()) == Ok::<ArgsView, ConfigFault>(args@),
                Err(e) => resolve(raw.deep_view()) == Err::<ArgsView, ConfigFault>(e@),
            },
            res matches Ok(args) ==> args@.name.len() > 0 && !is_dashed(args@.name)
                && raw.deep_view().contains(args@.name),
    {
        let ghost line = raw.deep_view();
        proof {
            lemma_name_is_a_token(line);
            lemma_keys();
            lemma_without_flag_contains(line, RELEASE@, EXAMPLE@);
            lemma_without_flag_contains(line, RELEASE@, BUILD_ONLY@);
            lemma_without_flag_contains(without_flag(line, RELEASE@), EXAMPLE@, BUILD_ONLY@);
        }
        let mut args = parser_of(raw);
        let release = flag(&mut args, RELEASE, Ghost(line));
        let example = flag(&mut args, EXAMPLE, Ghost(without_flag(line, RELEASE@)));
        let build_only = flag(
            &mut args,
            BUILD_ONLY,
            Ghost(without_flag(without_flag(line, RELEASE@), EXAMPLE@)),
        );
        let features = match value(&mut args, ValueOption::Features, Ghost(after_flags(line))) {
            Ok(found) => found,
            Err(e) => {
                return Err(e);
            },
        };
        let host = match value(&mut args, ValueOption::Host, Ghost(after_features(line))) {
            Ok(found) => found,
            Err(e) => {
                return Err(e);
            },
        };
        let port = match value(&mut args, ValueOption::Port, Ghost(after_host(line))) {
            Ok(found) => found,
            Err(e) => {
                return Err(e);
            },
        };
        let mut rest = rest_of(args);
        proof {
            lemma_held_alike(rest.deep_view(), free_tokens(line));
        }
        let mut i: usize = 0;
        while i < rest.len()
            invariant
                i <= rest.len(),
                rest.deep_view() == free_tokens(line),
                unfinished_option(line) is None,
                line == raw.deep_view(),
                forall|j: int| 0 <= j < i ==> !is_dashed(#[trigger] rest.deep_view()[j]),
            decreases rest.len() - i,
        {
            if starts_with_dash(rest[i].as_str()) {
                proof {
                    assert(is_dashed(rest.deep_view()[i as int]));
                    lemma_first_dashed(rest.deep_view());
                }
                return Err(ConfigError::UnknownOption(rest[i].clone()));
            }
            i += 1;
        }
        proof {
            lemma_first_dashed(rest.deep_view());
        }
        if rest.len() == 0 {
            Err(ConfigError::MissingName)
        } else if rest.len() == 1 {
            let name = rest.remove(0);
            if name.as_str().is_empty() {
                Err(ConfigError::MissingName)
            } else {
                Ok(Args { release, example, name, features, build_only, host, port })
            }
        } else {
            Err(ConfigError::TooManyArgs(rest))
        }
    }
}

impl Args {
    /// Whether the build is optimised.
    pub fn release(&self) -> (b: bool)
        ensures
            b == self@.release,
    {
        self.release
    }

    /// Whether the unit is an example rather than a package.
    pub fn example(&self) -> (b: bool)
        ensures
            b == self@.example,
    {
        self.example
    }

    /// Whether the run ends once the site is staged.
    pub fn build_only(&self) -> (b: bool)
        ensures
            b == self@.build_only,
    {
        self.build_only
    }

    /// The name of the unit. It is not empty and does not begin with a dash.
    pub fn name(&self) -> (name: &str)
        ensures
            name@ == self@.name,
            name@.len() > 0,
            !is_dashed(name@),
    {
        proof {
            use_type_invariant(self);
        }
        self.name.as_str()
    }

    /// The feature list, as it was given.
    pub fn features(&self) -> (features: Option<&str>)
        ensures
            features.deep_view() == self@.features,
    {
        match &self.features {
            Some(list) => Some(list.as_str()),
            None => None,
        }
    }

    /// The host to serve on, where one was given.
    pub fn host(&self) -> (host: Option<&str>)
        ensures
            host.deep_view() == self@.host,
    {
        match &self.host {
            Some(host) => Some(host.as_str()),
            None => None,
        }
    }

    /// The port to serve on, where one was given, as it was written.
    pub fn port(&self) -> (port: Option<&str>)
        ensures
            port.deep_view() == self@.port,
    {
        match &self.port {
            Some(port) => Some(port.as_str()),
            None => None,
        }
    }
}

impl ConfigError {
    /// The one line that says what is wrong with the command line.
    pub fn message(&self) -> (text: String)
        ensures
            text@ == self@.message(),
    {
        match self {
            ConfigError::UnknownOption(token) => {
                let mut text = String::from_str("Unknown option ");
                text.append(token.as_str());
                text
            },
            ConfigError::MissingName => String::from_str(
                "Expected NAME arg, but there was no NAME arg",
            ),
            ConfigError::TooManyArgs(tokens) => {
                let listed = list_text(tokens);
                too_many_text(tokens.len(), listed.as_str())
            },
            ConfigError::MalformedOption(option) => {
                let mut text = String::from_str("Expected a value after ");
                text.append(option.key_text());
                text
            },
        }
    }
}

} // verus!
