//! What the VLESS server does with a connection.

use crate::config::VlessTransportConfig;
use crate::proxy::ConnectOutcome;
use crate::text;
use crate::vless::protocol::CMD_TCP;
use vstd::prelude::*;

verus! {

/// What the server needs to take TLS connections.
#[derive(Clone, Copy, Debug, PartialEq, Eq, Structural)]
pub enum TlsSetup {
    /// A certificate for the name that Reality shows.
    Reality,
    /// The configured certificate.
    Standard,
    /// Nothing.
    Plain,
}

/// What a connection goes through before its request is read.
#[derive(Clone, Copy, Debug, PartialEq, Eq, Structural)]
pub enum Route {
    /// The check of a Reality hello.
    Reality,
    /// Nothing.
    Tcp,
    /// A TLS handshake.
    Tls,
    /// A WebSocket upgrade.
    Ws,
    /// A TLS handshake, and a WebSocket upgrade in it.
    WsTls,
}

/// Why a connection cannot be served.
#[derive(Clone, Copy, Debug, PartialEq, Eq, Structural)]
pub enum RouteError {
    /// The configuration lacks the section on Reality.
    NoRealitySection,
    /// Reality was not set up.
    NoRealityAcceptor,
    /// TLS was not set up.
    NoTlsAcceptor,
    /// The transport is not known.
    UnknownTransport,
}

/// What a transport needs set up.
pub open spec fn setup_of(kind: Seq<char>, tls: bool, reality: bool) -> Result<
    TlsSetup,
    RouteError,
> {
    if kind == "reality"@ {
        if reality {
            Ok(TlsSetup::Reality)
        } else {
            Err(RouteError::NoRealitySection)
        }
    } else if tls {
        Ok(TlsSetup::Standard)
    } else {
        Ok(TlsSetup::Plain)
    }
}

/// Decides what is to be set up before the server listens.
pub fn tls_setup(cfg: &VlessTransportConfig) -> (r: Result<TlsSetup, RouteError>)
    ensures
        r == setup_of(cfg.kind@, cfg.tls, cfg.reality is Some),
{
    if text::same_text(cfg.kind.as_str(), "reality") {
        match &cfg.reality {
            Some(_) => Ok(TlsSetup::Reality),
            None => Err(RouteError::NoRealitySection),
        }
    } else if cfg.tls {
        Ok(TlsSetup::Standard)
    } else {
        Ok(TlsSetup::Plain)
    }
}

/// The way of a connection, where TLS was set up or was not.
pub open spec fn route_of(kind: Seq<char>, tls: bool, reality: bool, acceptor: bool) -> Result<
    Route,
    RouteError,
> {
    if kind == "reality"@ {
        if !reality {
            Err(RouteError::NoRealitySection)
        } else if !acceptor {
            Err(RouteError::NoRealityAcceptor)
        } else {
            Ok(Route::Reality)
        }
    } else if kind == "tcp"@ || kind == "ws"@ {
        if !tls {
            Ok(
                if kind == "tcp"@ {
                    Route::Tcp
                } else {
                    Route::Ws
                },
            )
        } else if !acceptor {
            Err(RouteError::NoTlsAcceptor)
        } else {
            Ok(
                if kind == "tcp"@ {
                    Route::Tls
                } else {
                    Route::WsTls
                },
            )
        }
    } else {
        Err(RouteError::UnknownTransport)
    }
}

/// Chooses the way of a connection.
pub fn route(cfg: &VlessTransportConfig, acceptor: bool) -> (r: Result<Route, RouteError>)
    ensures
        r == route_of(cfg.kind@, cfg.tls, cfg.reality is Some, acceptor),
{
    proof {
        reveal_strlit("tcp");
        reveal_strlit("ws");
    }
    let kind = cfg.kind.as_str();
    if text::same_text(kind, "reality") {
        if cfg.reality.is_none() {
            return Err(RouteError::NoRealitySection);
        }
        if !acceptor {
            return Err(RouteError::NoRealityAcceptor);
        }
        return Ok(Route::Reality);
    }
    let tcp = text::same_text(kind, "tcp");
    let ws = text::same_text(kind, "ws");
    if !tcp && !ws {
        return Err(RouteError::UnknownTransport);
    }
    if cfg.tls && !acceptor {
        return Err(RouteError::NoTlsAcceptor);
    }
    if tcp {
        if cfg.tls {
            Ok(Route::Tls)
        } else {
            Ok(Route::Tcp)
        }
    } else {
        if cfg.tls {
            Ok(Route::WsTls)
        } else {
            Ok(Route::Ws)
        }
    }
}

/// A server that came up has all that its connections need: only a transport
/// that is not known can turn them away.
pub proof fn law_setup_suffices(kind: Seq<char>, tls: bool, reality: bool)
    requires
        setup_of(kind, tls, reality) is Ok,
    ensures
        ({
            let acceptor = setup_of(kind, tls, reality)->Ok_0 != TlsSetup::Plain;
            match route_of(kind, tls, reality, acceptor) {
                Ok(_) => kind == "reality"@ || kind == "tcp"@ || kind == "ws"@,
                Err(e) => e == RouteError::UnknownTransport && kind != "reality"@ && kind != "tcp"@
                    && kind != "ws"@,
            }
        }),
{
}

/// Whether a request with this command is served.
pub open spec fn is_served(command: u8) -> bool {
    command == 1
}

/// Whether a request is served: only one for a TCP connection is.
pub fn check_command(command: u8) -> (r: Result<(), u8>)
    ensures
        r is Ok <==> is_served(command),
        r is Err ==> r->Err_0 == command,
        r == if command == 1 {
            Ok::<(), u8>(())
        } else {
            Err(command)
        },
{
    if command == CMD_TCP {
        Ok(())
    } else {
        Err(command)
    }
}

/// With what a request fails after the attempt to reach its target; `None`
/// where it goes on.
pub open spec fn failure_of(outcome: ConnectOutcome) -> Option<Seq<char>> {
    match outcome {
        ConnectOutcome::Connected => None,
        ConnectOutcome::Failed(why) => Some(why@),
        ConnectOutcome::TimedOut => Some("connect timeout"@),
    }
}

/// Whether a request goes on after the attempt to reach its target, or with
/// what it fails.
pub fn connect_result(outcome: ConnectOutcome) -> (r: Result<(), String>)
    ensures
        match (r, failure_of(outcome)) {
            (Ok(_), None) => true,
            (Err(why), Some(reason)) => why@ == reason,
            _ => false,
        },
        match outcome {
            ConnectOutcome::Connected => r is Ok,
            ConnectOutcome::Failed(why) => r is Err && r->Err_0@ == why@,
            ConnectOutcome::TimedOut => r is Err && r->Err_0@ == "connect timeout"@,
        },
{
    match outcome {
        ConnectOutcome::Connected => Ok(()),
        ConnectOutcome::Failed(why) => Err(why),
        ConnectOutcome::TimedOut => Err("connect timeout".to_string()),
    }
}

/// What is set up: Reality where it is asked for and configured, else TLS where
/// it is asked for.
pub proof fn law_what_is_set_up(kind: Seq<char>, tls: bool, reality: bool)
    ensures
        setup_of("reality"@, tls, true) == Ok::<TlsSetup, RouteError>(TlsSetup::Reality),
        setup_of("reality"@, tls, false) == Err::<TlsSetup, RouteError>(
            RouteError::NoRealitySection,
        ),
        kind != "reality"@ ==> setup_of(kind, true, reality) == Ok::<TlsSetup, RouteError>(
            TlsSetup::Standard,
        ),
        kind != "reality"@ ==> setup_of(kind, false, reality) == Ok::<TlsSetup, RouteError>(
            TlsSetup::Plain,
        ),
{
}

/// The ways of connections: Reality needs its section and its certificate, the
/// two other transports need a certificate for TLS alone, and no other
/// transport has a way.
pub proof fn law_ways_of_connections(kind: Seq<char>, tls: bool, reality: bool, acceptor: bool)
    ensures
        route_of("reality"@, tls, true, true) == Ok::<Route, RouteError>(Route::Reality),
        route_of("reality"@, tls, true, false) == Err::<Route, RouteError>(
            RouteError::NoRealityAcceptor,
        ),
        route_of("reality"@, tls, false, acceptor) == Err::<Route, RouteError>(
            RouteError::NoRealitySection,
        ),
        route_of("tcp"@, false, reality, acceptor) == Ok::<Route, RouteError>(Route::Tcp),
        route_of("tcp"@, true, reality, true) == Ok::<Route, RouteError>(Route::Tls),
        route_of("tcp"@, true, reality, false) == Err::<Route, RouteError>(
            RouteError::NoTlsAcceptor,
        ),
        route_of("ws"@, false, reality, acceptor) == Ok::<Route, RouteError>(Route::Ws),
        route_of("ws"@, true, reality, true) == Ok::<Route, RouteError>(Route::WsTls),
        route_of("ws"@, true, reality, false) == Err::<Route, RouteError>(
            RouteError::NoTlsAcceptor,
        ),
        kind != "reality"@ && kind != "tcp"@ && kind != "ws"@ ==> route_of(
            kind,
            tls,
            reality,
            acceptor,
        ) == Err::<Route, RouteError>(RouteError::UnknownTransport),
{
    reveal_strlit("reality");
    reveal_strlit("tcp");
    reveal_strlit("ws");
    assert("reality"@.len() == 7 && "tcp"@.len() == 3 && "ws"@.len() == 2);
}

/// A request goes on exactly where its target was reached, and else fails with
/// the reason as the system gave it, or because the time is over.
pub proof fn law_failures(outcome: ConnectOutcome, why: String)
    ensures
        failure_of(outcome) is None <==> outcome is Connected,
        failure_of(ConnectOutcome::Failed(why)) == Some(why@),
        failure_of(ConnectOutcome::TimedOut) == Some("connect timeout"@),
{
}

/// One command of all is served, the one that asks for a TCP connection.
pub proof fn law_one_command_is_served(a: u8, b: u8)
    ensures
        is_served(CMD_TCP),
        is_served(a) && is_served(b) ==> a == b,
{
}

} // verus!
