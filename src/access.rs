use vstd::prelude::*;
use crate::listing::{drop_sentinel, listing_of, split_listing, without_sentinel};
use crate::text::{
    format_i32, format_numeral, i32_of, integer_text, numeral_of, parse_i32, parse_u32,
    raw_value_of, strip_value, u32_of,
};

verus! {

/// What the configuration tool is asked to do.
#[derive(Clone, Copy, Debug, PartialEq, Eq, Structural)]
pub enum Action {
    Read,
    Write,
    List,
}

/// Why an operation on the store failed.
#[derive(Clone, Copy, Debug, PartialEq, Eq, Structural)]
pub enum ConfigError {
    /// The tool could not be run for this action.
    Launch(Action),
    /// A directory key did not end with `/`.
    MissingTrailingSeparator,
    /// The value read back is no integer of the type asked for.
    NotAnInteger,
    /// The value read back is no floating-point number.
    NotADouble,
}

impl ConfigError {
    /// A sentence that describes the failure.
    pub fn message(&self) -> (r: String)
        ensures
            r@ == message_of(*self),
    {
        let text = match self {
            ConfigError::Launch(Action::Read) => "Unable to get key",
            ConfigError::Launch(Action::Write) => "Unable to set key",
            ConfigError::Launch(Action::List) => "Unable to list key",
            ConfigError::MissingTrailingSeparator => "Key must end with a trailing '/'",
            ConfigError::NotAnInteger => "Value is not an integer",
            ConfigError::NotADouble => "Value is not a double",
        };
        String::from_str(text)
    }
}

pub open spec fn message_of(e: ConfigError) -> Seq<char> {
    match e {
        ConfigError::Launch(Action::Read) => "Unable to get key"@,
        ConfigError::Launch(Action::Write) => "Unable to set key"@,
        ConfigError::Launch(Action::List) => "Unable to list key"@,
        ConfigError::MissingTrailingSeparator => "Key must end with a trailing '/'"@,
        ConfigError::NotAnInteger => "Value is not an integer"@,
        ConfigError::NotADouble => "Value is not a double"@,
    }
}

/// One run of the configuration tool: an action on a key, and for a write the
/// text of the new value.
#[derive(Debug)]
pub struct Invocation {
    pub action: Action,
    pub key: String,
    pub value: Option<String>,
}

/// The word that names an action on the tool's command line.
pub open spec fn action_word(a: Action) -> Seq<char> {
    match a {
        Action::Read => "read"@,
        Action::Write => "write"@,
        Action::List => "list"@,
    }
}

/// The command-line arguments of an invocation.
pub open spec fn args_of(inv: Invocation) -> Seq<Seq<char>> {
    match inv.value {
        Some(v) => seq![action_word(inv.action), inv.key@, v@],
        None => seq![action_word(inv.action), inv.key@],
    }
}

/// An invocation with the given action, key and value text.
pub open spec fn is_invocation(
    inv: Invocation,
    action: Action,
    key: Seq<char>,
    value: Option<Seq<char>>,
) -> bool {
    &&& inv.action == action
    &&& inv.key@ == key
    &&& match (inv.value, value) {
        (Some(v), Some(t)) => v@ == t,
        (None, None) => true,
        _ => false,
    }
}

impl Invocation {
    /// The arguments to hand to the tool, action word first.
    pub fn args(&self) -> (r: Vec<String>)
        ensures
            r.deep_view() == args_of(*self),
    {
        let word = match self.action {
            Action::Read => "read",
            Action::Write => "write",
            Action::List => "list",
        };
        let mut r: Vec<String> = Vec::new();
        r.push(String::from_str(word));
        r.push(self.key.clone());
        match &self.value {
            Some(v) => {
                r.push(v.clone());
            },
            None => {},
        }
        assert(r.deep_view() =~= args_of(*self));
        r
    }
}

/// Whether `key` names a directory: it ends with `/`.
pub open spec fn is_dir_key(key: Seq<char>) -> bool {
    key.len() > 0 && key.last() == '/'
}

/// The run that reads the value of `key`.
pub fn read_request(key: &str) -> (r: Invocation)
    ensures
        is_invocation(r, Action::Read, key@, None),
{
    Invocation { action: Action::Read, key: String::from_str(key), value: None }
}

/// The run that writes `value`, already in the tool's value syntax, to `key`.
pub fn write_request(key: &str, value: &str) -> (r: Invocation)
    ensures
        is_invocation(r, Action::Write, key@, Some(value@)),
{
    Invocation {
        action: Action::Write,
        key: String::from_str(key),
        value: Some(String::from_str(value)),
    }
}

/// The run that lists the directory `key`; refused, before anything runs, where
/// `key` does not end with `/`.
pub fn list_request(key: &str) -> (r: Result<Invocation, ConfigError>)
    ensures
        is_dir_key(key@) ==> (r matches Ok(inv) && is_invocation(inv, Action::List, key@, None)),
        !is_dir_key(key@) ==> r == Err::<Invocation, ConfigError>(
            ConfigError::MissingTrailingSeparator,
        ),
{
    let n = key.unicode_len();
    if n > 0 && key.get_char(n - 1) == '/' {
        Ok(Invocation { action: Action::List, key: String::from_str(key), value: None })
    } else {
        Err(ConfigError::MissingTrailingSeparator)
    }
}

/// The outcome of a write: it succeeds where the tool could be run.
pub fn write_outcome(launched: bool) -> (r: Result<(), ConfigError>)
    ensures
        r == if launched {
            Ok::<(), ConfigError>(())
        } else {
            Err(ConfigError::Launch(Action::Write))
        },
{
    if launched {
        Ok(())
    } else {
        Err(ConfigError::Launch(Action::Write))
    }
}

/// The value text that stands for a boolean.
pub open spec fn boolean_text(v: bool) -> Seq<char> {
    if v {
        "true"@
    } else {
        "false"@
    }
}

/// The value text that stands for a string: the string in single quotes.
pub open spec fn string_text(v: Seq<char>) -> Seq<char> {
    seq!['\''] + v + seq!['\'']
}

/// The boolean that a printed value stands for: true exactly for `true`.
pub open spec fn boolean_of(stdout: Seq<char>) -> bool {
    raw_value_of(stdout) == "true"@
}

/// The run that writes a boolean to `key`.
pub fn set_boolean(key: &str, value: bool) -> (r: Invocation)
    ensures
        is_invocation(r, Action::Write, key@, Some(boolean_text(value))),
{
    if value {
        write_request(key, "true")
    } else {
        write_request(key, "false")
    }
}

/// The run that writes a string to `key`, in single quotes.
pub fn set_string(key: &str, value: &str) -> (r: Invocation)
    ensures
        is_invocation(r, Action::Write, key@, Some(string_text(value@))),
{
    let quote = "'";
    proof {
        reveal_strlit("'");
    }
    let text = String::from_str(quote).concat(value).concat(quote);
    assert(text@ =~= string_text(value@));
    write_request(key, text.as_str())
}

/// The run that writes a signed integer to `key`, in decimal.
pub fn set_int(key: &str, value: i32) -> (r: Invocation)
    ensures
        is_invocation(r, Action::Write, key@, Some(integer_text(value as int))),
{
    let text = format_i32(value);
    write_request(key, text.as_str())
}

/// The run that writes an unsigned integer to `key`, in decimal.
pub fn set_uint(key: &str, value: u32) -> (r: Invocation)
    ensures
        is_invocation(r, Action::Write, key@, Some(numeral_of(value as nat))),
{
    let text = format_numeral(value as u64);
    write_request(key, text.as_str())
}

/// The value text in what a read printed: quotes and line breaks removed.
pub fn raw_value(stdout: &str) -> (r: String)
    ensures
        r@ == raw_value_of(stdout@),
{
    strip_value(stdout)
}

/// The boolean read from the store, given what the read printed (`None` where
/// the tool could not be run).
pub fn get_boolean(stdout: &Option<String>) -> (r: Result<bool, ConfigError>)
    ensures
        r == match stdout {
            Some(out) => Ok::<bool, ConfigError>(boolean_of(out@)),
            None => Err(ConfigError::Launch(Action::Read)),
        },
{
    match stdout {
        Some(out) => {
            let value = raw_value(out.as_str());
            let expected = String::from_str("true");
            Ok(value == expected)
        },
        None => Err(ConfigError::Launch(Action::Read)),
    }
}

/// The string read from the store, given what the read printed.
pub fn get_string(stdout: &Option<String>) -> (r: Result<String, ConfigError>)
    ensures
        match stdout {
            Some(out) => r matches Ok(v) && v@ == raw_value_of(out@),
            None => r == Err::<String, ConfigError>(ConfigError::Launch(Action::Read)),
        },
{
    match stdout {
        Some(out) => Ok(raw_value(out.as_str())),
        None => Err(ConfigError::Launch(Action::Read)),
    }
}

/// The signed integer read from the store, given what the read printed.
pub fn get_int(stdout: &Option<String>) -> (r: Result<i32, ConfigError>)
    ensures
        r == match stdout {
            Some(out) => match i32_of(raw_value_of(out@)) {
                Some(n) => Ok::<i32, ConfigError>(n),
                None => Err(ConfigError::NotAnInteger),
            },
            None => Err(ConfigError::Launch(Action::Read)),
        },
{
    match stdout {
        Some(out) => {
            let value = raw_value(out.as_str());
            match parse_i32(value.as_str()) {
                Some(n) => Ok(n),
                None => Err(ConfigError::NotAnInteger),
            }
        },
        None => Err(ConfigError::Launch(Action::Read)),
    }
}

/// The unsigned integer read from the store, given what the read printed.
pub fn get_uint(stdout: &Option<String>) -> (r: Result<u32, ConfigError>)
    ensures
        r == match stdout {
            Some(out) => match u32_of(raw_value_of(out@)) {
                Some(n) => Ok::<u32, ConfigError>(n),
                None => Err(ConfigError::NotAnInteger),
            },
            None => Err(ConfigError::Launch(Action::Read)),
        },
{
    match stdout {
        Some(out) => {
            let value = raw_value(out.as_str());
            match parse_u32(value.as_str()) {
                Some(n) => Ok(n),
                None => Err(ConfigError::NotAnInteger),
            }
        },
        None => Err(ConfigError::Launch(Action::Read)),
    }
}

/// The children of a directory, given what the listing printed: one per line,
/// without the sentinel that the tool may print last.
pub fn list_dir(stdout: &Option<String>) -> (r: Result<Vec<String>, ConfigError>)
    ensures
        match stdout {
            Some(out) => r matches Ok(v) && v.deep_view() == without_sentinel(listing_of(out@)),
            None => r matches Err(e) && e == ConfigError::Launch(Action::List),
        },
{
    match stdout {
        Some(out) => Ok(drop_sentinel(split_listing(out.as_str()))),
        None => Err(ConfigError::Launch(Action::List)),
    }
}

} // verus!
