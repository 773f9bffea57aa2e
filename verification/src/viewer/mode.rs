//! What the viewer's command line asks for.

use vstd::prelude::*;

use super::live_net::LoginRequest;
use crate::net::protocol;

verus! {

/// The command line.
#[derive(Debug)]
pub struct Cli {
    /// Path to an event log.
    pub replay: Option<String>,
    /// `host:port` of a server to connect to.
    pub connect: Option<String>,
    /// Username for login or registration.
    pub username: Option<String>,
    /// Password for login or registration.
    pub password: Option<String>,
    /// Register a new account instead of authenticating an existing one.
    pub register: bool,
    /// Email address (only used when registering).
    pub email: Option<String>,
}

/// What the viewer does.
#[derive(Debug)]
pub enum Mode {
    Replay(Option<String>),
    Live { addr: String, username: String, login: LoginRequest },
}

/// The message about a username that is not valid.
pub open spec fn bad_username(username: Seq<char>) -> Seq<char> {
    "invalid username '"@ + username
        + "': must be 3..=24 ASCII chars, [a-z0-9_.-], starting with alnum"@
}

/// The message that the command line is answered with, if it is refused.
pub open spec fn refusal(cli: Cli) -> Option<Seq<char>> {
    if cli.connect is None {
        None
    } else if cli.username is None {
        Some("--connect requires --username"@)
    } else if cli.password is None {
        Some("--connect requires --password"@)
    } else if !protocol::valid_username((cli.username->0)@) {
        Some(bad_username((cli.username->0)@))
    } else if !protocol::valid_password((cli.password->0)@) {
        Some("invalid password: must be 8..=128 chars"@)
    } else if cli.register {
        match cli.email {
            None => Some("--register requires --email"@),
            Some(email) => if !protocol::valid_email(email@) {
                Some("invalid email '"@ + email@ + "'"@)
            } else {
                None
            },
        }
    } else if cli.email is Some {
        Some("--email is only meaningful with --register"@)
    } else {
        None
    }
}

/// What a command line that is not refused asks for.
pub open spec fn asked(cli: Cli) -> Mode {
    match cli.connect {
        None => Mode::Replay(cli.replay),
        Some(addr) => Mode::Live {
            addr,
            username: cli.username->0,
            login: if cli.register {
                LoginRequest::Register {
                    email: cli.email->0,
                    username: cli.username->0,
                    password: cli.password->0,
                }
            } else {
                LoginRequest::Password {
                    identifier: cli.username->0,
                    password: cli.password->0,
                }
            },
        },
    }
}

/// Reads the command line: a log to replay, unless a server is named. Connecting
/// needs a valid username and password, registering a valid email as well.
pub fn pick_mode(cli: Cli) -> (mode: Result<Mode, String>)
    ensures
        match refusal(cli) {
            Some(why) => mode matches Err(msg) && msg@ == why,
            None => mode == Ok::<Mode, String>(asked(cli)),
        },
{
    let Cli { replay, connect, username, password, register, email } = cli;
    let addr = match connect {
        None => {
            return Ok(Mode::Replay(replay));
        },
        Some(addr) => addr,
    };
    let username = match username {
        None => {
            return Err("--connect requires --username".to_owned());
        },
        Some(username) => username,
    };
    let password = match password {
        None => {
            return Err("--connect requires --password".to_owned());
        },
        Some(password) => password,
    };
    if !protocol::is_valid_username(username.as_str()) {
        let mut msg = "invalid username '".to_owned();
        msg.append(username.as_str());
        msg.append("': must be 3..=24 ASCII chars, [a-z0-9_.-], starting with alnum");
        assert(msg@ =~= bad_username(username@));
        return Err(msg);
    }
    if !protocol::is_valid_password(password.as_str()) {
        return Err("invalid password: must be 8..=128 chars".to_owned());
    }
    let login = if register {
        match email {
            None => {
                return Err("--register requires --email".to_owned());
            },
            Some(email) => {
                if !protocol::is_valid_email(email.as_str()) {
                    let mut msg = "invalid email '".to_owned();
                    msg.append(email.as_str());
                    msg.append("'");
                    assert(msg@ =~= "invalid email '"@ + email@ + "'"@);
                    return Err(msg);
                }
                LoginRequest::Register { email, username: username.clone(), password }
            },
        }
    } else {
        if email.is_some() {
            return Err("--email is only meaningful with --register".to_owned());
        }
        LoginRequest::Password { identifier: username.clone(), password }
    };
    Ok(Mode::Live { addr, username, login })
}

/// Without a server the viewer replays. With one it goes live exactly if a valid name and a
/// valid password are given, and a valid address if and only if an account is registered.
pub proof fn command_lines_are_checked(cli: Cli)
    ensures
        cli.connect is None ==> refusal(cli) is None && asked(cli) == Mode::Replay(cli.replay),
        cli.connect is Some ==> (refusal(cli) is None <==> {
            &&& cli.username is Some && protocol::valid_username((cli.username->0)@)
            &&& cli.password is Some && protocol::valid_password((cli.password->0)@)
            &&& cli.register ==> cli.email is Some && protocol::valid_email((cli.email->0)@)
            &&& !cli.register ==> cli.email is None
        }),
        cli.connect is Some && refusal(cli) is None ==> {
            &&& asked(cli) matches Mode::Live { addr, username, login }
            &&& addr == cli.connect->0
            &&& username == cli.username->0
            &&& cli.register ==> (login matches LoginRequest::Register {
                email,
                username: u,
                password,
            } && email == cli.email->0 && u == cli.username->0 && password == cli.password->0)
            &&& !cli.register ==> (login matches LoginRequest::Password { identifier, password }
                && identifier == cli.username->0 && password == cli.password->0)
        },
{
}

} // verus!
