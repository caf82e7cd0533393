//! Command-line settings: the option grammar, its defaults, and the
//! accessors the rest of the program reads.  Parsing is a plain scan over
//! the argument list, stated by the specification `parse_from`.

use vstd::prelude::*;

use crate::text::{parse_u8, str_eq};

verus! {

/// The resolved settings of the service.
#[derive(Debug)]
pub struct Settings {
    pub verbose: bool,
    pub connect: String,
    pub server: String,
    pub mavlink: u8,
    pub system_id: u8,
    pub component_id: u8,
    pub default_api_version: u8,
}

/// The mathematical content of the settings.
#[verifier::ext_equal]
pub struct SettingsModel {
    pub verbose: bool,
    pub connect: Seq<char>,
    pub server: Seq<char>,
    pub mavlink: u8,
    pub system_id: u8,
    pub component_id: u8,
    pub default_api_version: u8,
}

impl View for Settings {
    type V = SettingsModel;

    open spec fn view(&self) -> SettingsModel {
        SettingsModel {
            verbose: self.verbose,
            connect: self.connect@,
            server: self.server@,
            mavlink: self.mavlink,
            system_id: self.system_id,
            component_id: self.component_id,
            default_api_version: self.default_api_version,
        }
    }
}

/// Why an argument list was rejected.
#[derive(Debug, Copy, Clone, PartialEq, Eq, Structural)]
pub enum CliError {
    /// An option that needs a value stood last.
    MissingValue,
    /// A value outside the option's accepted set.
    InvalidValue,
    /// A word that is no known option.
    UnknownArgument,
}

/// The settings before any argument is read.
pub open spec fn default_settings() -> SettingsModel {
    SettingsModel {
        verbose: false,
        connect: "udpin:0.0.0.0:14550"@,
        server: "0.0.0.0:8088"@,
        mavlink: 2,
        system_id: 255,
        component_id: 0,
        default_api_version: 1,
    }
}

/// One pass over the arguments from position `i` on: every recognized
/// option replaces its field, `-v`/`--verbose` takes no value, `--mavlink`
/// accepts 1 or 2, `--default-api-version` accepts 1, and the ids accept
/// any byte.
pub open spec fn parse_from(args: Seq<Seq<char>>, i: int, cur: SettingsModel) -> Result<
    SettingsModel,
    CliError,
>
    decreases args.len() - i,
{
    if i < 0 {
        Err(CliError::UnknownArgument)
    } else if i >= args.len() {
        Ok(cur)
    } else if args[i] == "--verbose"@ || args[i] == "-v"@ {
        parse_from(args, i + 1, SettingsModel { verbose: true, ..cur })
    } else if args[i] == "--connect"@ || args[i] == "-c"@ {
        if i + 1 < args.len() {
            parse_from(args, i + 2, SettingsModel { connect: args[i + 1], ..cur })
        } else {
            Err(CliError::MissingValue)
        }
    } else if args[i] == "--server"@ || args[i] == "-s"@ {
        if i + 1 < args.len() {
            parse_from(args, i + 2, SettingsModel { server: args[i + 1], ..cur })
        } else {
            Err(CliError::MissingValue)
        }
    } else if args[i] == "--mavlink"@ {
        if i + 1 >= args.len() {
            Err(CliError::MissingValue)
        } else if args[i + 1] == "1"@ {
            parse_from(args, i + 2, SettingsModel { mavlink: 1, ..cur })
        } else if args[i + 1] == "2"@ {
            parse_from(args, i + 2, SettingsModel { mavlink: 2, ..cur })
        } else {
            Err(CliError::InvalidValue)
        }
    } else if args[i] == "--system-id"@ {
        if i + 1 >= args.len() {
            Err(CliError::MissingValue)
        } else if args[i + 1].len() > 0 && crate::text::all_dec_digits(args[i + 1])
            && crate::text::dec_value(args[i + 1]) <= 255 {
            parse_from(
                args,
                i + 2,
                SettingsModel { system_id: crate::text::dec_value(args[i + 1]) as u8, ..cur },
            )
        } else {
            Err(CliError::InvalidValue)
        }
    } else if args[i] == "--component-id"@ {
        if i + 1 >= args.len() {
            Err(CliError::MissingValue)
        } else if args[i + 1].len() > 0 && crate::text::all_dec_digits(args[i + 1])
            && crate::text::dec_value(args[i + 1]) <= 255 {
            parse_from(
                args,
                i + 2,
                SettingsModel { component_id: crate::text::dec_value(args[i + 1]) as u8, ..cur },
            )
        } else {
            Err(CliError::InvalidValue)
        }
    } else if args[i] == "--default-api-version"@ {
        if i + 1 >= args.len() {
            Err(CliError::MissingValue)
        } else if args[i + 1] == "1"@ {
            parse_from(args, i + 2, SettingsModel { default_api_version: 1, ..cur })
        } else {
            Err(CliError::InvalidValue)
        }
    } else {
        Err(CliError::UnknownArgument)
    }
}

/// What `init` yields: the defaults with the options of everything after
/// the program name applied.
pub open spec fn parsed_settings(args: Seq<Seq<char>>) -> Result<SettingsModel, CliError> {
    parse_from(args, 1, default_settings())
}

/// Builds the settings from the argument list (the first element being the
/// program name), as `parsed_settings` describes.
pub fn init(args: &Vec<String>) -> (r: Result<Settings, CliError>)
    ensures
        match r {
            Ok(s) => parsed_settings(args@.map_values(|a: String| a@)) == Ok::<
                SettingsModel,
                CliError,
            >(s@),
            Err(e) => parsed_settings(args@.map_values(|a: String| a@)) == Err::<
                SettingsModel,
                CliError,
            >(e),
        },
{
    let ghost m = args@.map_values(|a: String| a@);
    let mut cur = Settings {
        verbose: false,
        connect: "udpin:0.0.0.0:14550".to_owned(),
        server: "0.0.0.0:8088".to_owned(),
        mavlink: 2,
        system_id: 255,
        component_id: 0,
        default_api_version: 1,
    };
    proof {
        assert(cur@ =~= default_settings());
        assert(m.len() == args@.len());
    }
    let n = args.len();
    let mut i: usize = 1;
    while i < n
        invariant
            1 <= i,
            n == args@.len(),
            m == args@.map_values(|a: String| a@),
            m.len() == n,
            i <= n || i == n + 1,
            parse_from(m, 1, default_settings()) == parse_from(m, i as int, cur@),
        decreases n - i,
    {
        proof {
            assert(m[i as int] == args@[i as int]@);
            if i + 1 < n {
                assert(m[i + 1] == args@[i + 1]@);
            }
        }
        let arg = &args[i];
        if str_eq(arg.as_str(), "--verbose") || str_eq(arg.as_str(), "-v") {
            cur.verbose = true;
            i = i + 1;
        } else if str_eq(arg.as_str(), "--connect") || str_eq(arg.as_str(), "-c") {
            if i + 1 < n {
                cur.connect = args[i + 1].clone();
                i = i + 2;
            } else {
                return Err(CliError::MissingValue);
            }
        } else if str_eq(arg.as_str(), "--server") || str_eq(arg.as_str(), "-s") {
            if i + 1 < n {
                cur.server = args[i + 1].clone();
                i = i + 2;
            } else {
                return Err(CliError::MissingValue);
            }
        } else if str_eq(arg.as_str(), "--mavlink") {
            if i + 1 >= n {
                return Err(CliError::MissingValue);
            }
            if str_eq(args[i + 1].as_str(), "1") {
                cur.mavlink = 1;
            } else if str_eq(args[i + 1].as_str(), "2") {
                cur.mavlink = 2;
            } else {
                return Err(CliError::InvalidValue);
            }
            i = i + 2;
        } else if str_eq(arg.as_str(), "--system-id") {
            if i + 1 >= n {
                return Err(CliError::MissingValue);
            }
            match parse_u8(args[i + 1].as_str()) {
                Some(v) => {
                    cur.system_id = v;
                    i = i + 2;
                },
                None => {
                    return Err(CliError::InvalidValue);
                },
            }
        } else if str_eq(arg.as_str(), "--component-id") {
            if i + 1 >= n {
                return Err(CliError::MissingValue);
            }
            match parse_u8(args[i + 1].as_str()) {
                Some(v) => {
                    cur.component_id = v;
                    i = i + 2;
                },
                None => {
                    return Err(CliError::InvalidValue);
                },
            }
        } else if str_eq(arg.as_str(), "--default-api-version") {
            if i + 1 >= n {
                return Err(CliError::MissingValue);
            }
            if str_eq(args[i + 1].as_str(), "1") {
                cur.default_api_version = 1;
                i = i + 2;
            } else {
                return Err(CliError::InvalidValue);
            }
        } else {
            return Err(CliError::UnknownArgument);
        }
    }
    Ok(cur)
}

/// Whether verbose logging was asked for.
pub fn is_verbose(s: &Settings) -> (r: bool)
    ensures
        r == s@.verbose,
{
    s.verbose
}

/// The MAVLink connection string.
pub fn mavlink_connection_string(s: &Settings) -> (r: &str)
    ensures
        r@ == s@.connect,
{
    s.connect.as_str()
}

/// The address the REST server binds.
pub fn server_address(s: &Settings) -> (r: &str)
    ensures
        r@ == s@.server,
{
    s.server.as_str()
}

/// The REST API version mounted at the root.
pub fn default_api_version(s: &Settings) -> (r: u8)
    ensures
        r == s@.default_api_version,
{
    s.default_api_version
}

/// The MAVLink protocol version to speak.
pub fn mavlink_version(s: &Settings) -> (r: u8)
    ensures
        r == s@.mavlink,
{
    s.mavlink
}

/// The system and component id this service announces.
pub fn mavlink_system_and_component_id(s: &Settings) -> (r: (u8, u8))
    ensures
        r.0 == s@.system_id,
        r.1 == s@.component_id,
{
    (s.system_id, s.component_id)
}

} // verus!
