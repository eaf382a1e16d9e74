//! What an invocation is started with: the debounce window, the name of
//! the segment, and the file of the command table.

use vstd::prelude::*;
use vstd::string::StringExecFns;
use crate::digits::{chars_of, is_number, number_value, parse_number};
use crate::election::DEFAULT_DEBOUNCE_MILLIS;

verus! {

/// Where the command table lies below the user's configuration
/// directory.
pub const TABLE_BELOW_CONFIG_DIR: &'static str = "/clicklauncher/cmdtable.tsv";

/// What joins the name of the program and the name of the user in the
/// name of the segment.
pub const SEGMENT_NAME_JOINT: &'static str = "_";

/// Something that the environment should tell and does not.
#[derive(Debug, Clone, Copy, PartialEq, Eq, Structural)]
pub enum EnvironmentError {
    /// The name of the user is not known.
    UserUnresolved,
    /// The configuration directory of the user is not known.
    ConfigDirUnresolved,
}

/// What is said where the name of the user is not known.
pub const USER_UNRESOLVED: &'static str = "Please check $USER value";

/// What is said where the configuration directory is not known.
pub const CONFIG_DIR_UNRESOLVED: &'static str = "Please check your config directory";

impl EnvironmentError {
    /// The fault in words.
    pub fn message(&self) -> (text: String)
        ensures
            *self == EnvironmentError::UserUnresolved ==> text@ == USER_UNRESOLVED@,
            *self == EnvironmentError::ConfigDirUnresolved ==> text@ == CONFIG_DIR_UNRESOLVED@,
    {
        match self {
            EnvironmentError::UserUnresolved => String::from_str(USER_UNRESOLVED),
            EnvironmentError::ConfigDirUnresolved => String::from_str(CONFIG_DIR_UNRESOLVED),
        }
    }
}

/// The name of the segment of a program and a user.
pub open spec fn segment_name_of(program: Seq<char>, user: Seq<char>) -> Seq<char> {
    program + SEGMENT_NAME_JOINT@ + user
}

/// The file of the command table below a configuration directory.
pub open spec fn table_below(config_dir: Seq<char>) -> Seq<char> {
    config_dir + TABLE_BELOW_CONFIG_DIR@
}

/// The debounce window that an argument asks for.
pub open spec fn debounce_of(arg: Option<Seq<char>>) -> int {
    match arg {
        Some(s) => if is_number(s, u64::MAX as int) {
            number_value(s)
        } else {
            DEFAULT_DEBOUNCE_MILLIS as int
        },
        None => DEFAULT_DEBOUNCE_MILLIS as int,
    }
}

/// The debounce window in milliseconds: the number that the argument
/// holds, or the default where there is no argument or it holds no number
/// that fits 64 bits.
pub fn debounce_millis(arg: Option<&str>) -> (millis: u64)
    ensures
        millis == debounce_of(
            match arg {
                Some(s) => Some(s@),
                None => None,
            },
        ),
{
    match arg {
        Some(s) => {
            let chars = chars_of(s);
            match parse_number(chars.as_slice(), u64::MAX) {
                Some(v) => v,
                None => DEFAULT_DEBOUNCE_MILLIS,
            }
        },
        None => DEFAULT_DEBOUNCE_MILLIS,
    }
}

/// The name of the segment: one per program and user, so that the
/// invocations of one user meet and those of two users do not.
pub fn segment_name(program: &str, user: Option<&str>) -> (r: Result<String, EnvironmentError>)
    ensures
        user matches Some(u) ==> (r matches Ok(name) && name@ == segment_name_of(program@, u@)),
        user is None ==> r == Err::<String, EnvironmentError>(EnvironmentError::UserUnresolved),
{
    match user {
        Some(u) => Ok(String::from_str(program).concat(SEGMENT_NAME_JOINT).concat(u)),
        None => Err(EnvironmentError::UserUnresolved),
    }
}

/// The file of the command table: the one that was asked for, or the one
/// below the configuration directory. Without a configuration directory
/// there is none, whether or not a file was asked for.
pub fn choose_config_file(explicit: Option<String>, config_dir: Option<String>) -> (r: Result<
    String,
    EnvironmentError,
>)
    ensures
        config_dir is None ==> r == Err::<String, EnvironmentError>(
            EnvironmentError::ConfigDirUnresolved,
        ),
        config_dir is Some && explicit is Some ==> r == Ok::<String, EnvironmentError>(
            explicit->Some_0,
        ),
        config_dir is Some && explicit is None ==> (r matches Ok(file) && file@ == table_below(
            config_dir->Some_0@,
        )),
{
    match config_dir {
        None => Err(EnvironmentError::ConfigDirUnresolved),
        Some(dir) => match explicit {
            Some(file) => Ok(file),
            None => Ok(dir.concat(TABLE_BELOW_CONFIG_DIR)),
        },
    }
}

/// What an invocation knows before it touches the segment.
#[derive(Debug, PartialEq, Eq)]
pub struct Settings {
    /// The debounce window in milliseconds.
    pub debounce_millis: u64,
    /// The name of the segment.
    pub segment_name: String,
    /// The file of the command table.
    pub config_file: String,
}

/// The file that `choose_config_file` settles on, given a configuration
/// directory.
pub open spec fn chosen_file(explicit: Option<String>, config_dir: Seq<char>) -> Seq<char> {
    match explicit {
        Some(file) => file@,
        None => table_below(config_dir),
    }
}

/// Settles what an invocation is started with, from its arguments and
/// from what the environment tells. The name of the user is asked for
/// first and the configuration directory second, and the first of them
/// that is not known is the fault.
pub fn settle(
    program: &str,
    user: Option<&str>,
    msecs: Option<&str>,
    config: Option<String>,
    config_dir: Option<String>,
) -> (r: Result<Settings, EnvironmentError>)
    ensures
        user is None ==> r == Err::<Settings, EnvironmentError>(EnvironmentError::UserUnresolved),
        user is Some && config_dir is None ==> r == Err::<Settings, EnvironmentError>(
            EnvironmentError::ConfigDirUnresolved,
        ),
        user is Some && config_dir is Some ==> (r matches Ok(settings)
            && settings.segment_name@ == segment_name_of(program@, user->Some_0@)
            && settings.debounce_millis == debounce_of(
            match msecs {
                Some(s) => Some(s@),
                None => None,
            },
        ) && settings.config_file@ == chosen_file(config, config_dir->Some_0@)),
{
    let segment_name = match segment_name(program, user) {
        Ok(name) => name,
        Err(e) => {
            return Err(e);
        },
    };
    let debounce_millis = debounce_millis(msecs);
    match choose_config_file(config, config_dir) {
        Ok(config_file) => Ok(Settings { debounce_millis, segment_name, config_file }),
        Err(e) => Err(e),
    }
}

/// Asks `dirs::config_dir` for the configuration directory of the user
/// and writes the path as text. Nothing is claimed of the answer: it
/// depends on the platform and on the environment of the process.
#[verifier::external_body]
fn user_config_dir() -> (dir: Option<String>) {
    match dirs::config_dir() {
        Some(path) => Some(format!("{}", path.display())),
        None => None,
    }
}

/// Settles what an invocation is started with, asking the platform for
/// the configuration directory of the user. Whatever the platform
/// answers, a missing user name is the first fault, the name of the
/// segment and the debounce window are those of the arguments, and the
/// file of the command table is the one asked for or lies below some
/// directory.
pub fn settle_here(
    program: &str,
    user: Option<&str>,
    msecs: Option<&str>,
    config: Option<String>,
) -> (r: Result<Settings, EnvironmentError>)
    ensures
        user is None ==> r == Err::<Settings, EnvironmentError>(EnvironmentError::UserUnresolved),
        r is Err && user is Some ==> r == Err::<Settings, EnvironmentError>(
            EnvironmentError::ConfigDirUnresolved,
        ),
        r matches Ok(settings) ==> settings.segment_name@ == segment_name_of(
            program@,
            user->Some_0@,
        ) && settings.debounce_millis == debounce_of(
            match msecs {
                Some(s) => Some(s@),
                None => None,
            },
        ) && exists|dir: Seq<char>| settings.config_file@ == #[trigger] chosen_file(config, dir),
{
    let config_dir = user_config_dir();
    proof {
        if config_dir is Some {
            let dir = config_dir->Some_0@;
            assert(chosen_file(config, dir) == chosen_file(config, dir));
        }
    }
    settle(program, user, msecs, config, config_dir)
}

} // verus!
