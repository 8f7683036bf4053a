//! Assembly of a service: the network settings, the shared context and the registry of modules.

use vstd::prelude::*;
use qwreey_utility_rs::ArcRwMap;
use crate::backend::{Assembled, Backend};
use crate::lifecycle::initial;

verus! {

/// The port on which a service listens that was given none.
pub const DEFAULT_PORT: u16 = 80;

/// The name under which every service identifies itself.
pub const IDENT: &'static str = "MC-Captcha";

/// The base path of a module that names none.
pub const DEFAULT_BASE: &'static str = "/";

/// The address that a service binds to.
#[derive(Clone, Copy, Debug, PartialEq, Eq)]
pub enum BindAddress {
    /// An IPv4 address by its four octets.
    V4(u8, u8, u8, u8),
    /// An IPv6 address by its eight segments.
    V6(u16, u16, u16, u16, u16, u16, u16, u16),
}

/// The address of a service that was given none: the local host.
pub open spec fn default_address() -> BindAddress {
    BindAddress::V4(127, 0, 0, 1)
}

/// What the configure step applies to the server.
#[derive(Clone, Copy, Debug, PartialEq, Eq)]
pub struct ServerConfig {
    pub port: u16,
    pub address: BindAddress,
    /// The identity of the server; the same for every service.
    pub ident: &'static str,
    /// Whether the server colours what it prints; never.
    pub cli_colors: bool,
}

/// The settings of the server for a port and an address.
pub open spec fn server_config(port: u16, address: BindAddress) -> ServerConfig {
    ServerConfig { port, address, ident: IDENT, cli_colors: false }
}

/// A builder as a mathematical value.
pub struct Settings<M> {
    /// The registered modules, in registration order.
    pub exports: Seq<M>,
    pub port: u16,
    pub address: BindAddress,
    pub userdata: Option<ArcRwMap>,
}

/// Collects what a service is made of. `M` is the type of a module; the builder keeps the
/// modules in the order in which they were registered and never looks into one.
pub struct WebBackendBuilder<M> {
    exports: Vec<M>,
    port: u16,
    address: BindAddress,
    userdata: Option<ArcRwMap>,
}

impl<M> View for WebBackendBuilder<M> {
    type V = Settings<M>;

    closed spec fn view(&self) -> Settings<M> {
        Settings {
            exports: self.exports@,
            port: self.port,
            address: self.address,
            userdata: self.userdata,
        }
    }
}

impl<M> Default for WebBackendBuilder<M> {
    /// A builder with no module and no context, for port 80 on the local host.
    fn default() -> (r: Self)
        ensures
            r@ == (Settings::<M> {
                exports: Seq::empty(),
                port: DEFAULT_PORT,
                address: default_address(),
                userdata: None,
            }),
    {
        WebBackendBuilder {
            exports: Vec::new(),
            port: DEFAULT_PORT,
            address: BindAddress::V4(127, 0, 0, 1),
            userdata: None,
        }
    }
}

impl<M> WebBackendBuilder<M> {
    /// The builder that [`Default`] gives.
    pub fn new() -> (r: Self)
        ensures
            r@ == (Settings::<M> {
                exports: Seq::empty(),
                port: DEFAULT_PORT,
                address: default_address(),
                userdata: None,
            }),
    {
        Self::default()
    }

    /// Sets the port; `None` sets the default port.
    pub fn port(self, port: Option<u16>) -> (r: Self)
        ensures
            r@ == (Settings {
                port: match port {
                    Some(port) => port,
                    None => DEFAULT_PORT,
                },
                ..self@
            }),
    {
        let mut builder = self;
        builder.port = match port {
            Some(port) => port,
            None => DEFAULT_PORT,
        };
        builder
    }

    /// Sets the address; `None` sets the default address.
    pub fn bind(self, address: Option<BindAddress>) -> (r: Self)
        ensures
            r@ == (Settings {
                address: match address {
                    Some(address) => address,
                    None => default_address(),
                },
                ..self@
            }),
    {
        let mut builder = self;
        builder.address = match address {
            Some(address) => address,
            None => BindAddress::V4(127, 0, 0, 1),
        };
        builder
    }

    /// Sets the context that every hook of every module will receive.
    pub fn userdata(self, userdata: ArcRwMap) -> (r: Self)
        ensures
            r@ == (Settings { userdata: Some(userdata), ..self@ }),
    {
        let mut builder = self;
        builder.userdata = Some(userdata);
        builder
    }

    /// Whether a context has been set.
    pub fn has_userdata(&self) -> (r: bool)
        ensures
            r == self@.userdata is Some,
    {
        self.userdata.is_some()
    }

    /// Registers a module behind those that are registered already.
    pub fn add_export(self, export: M) -> (r: Self)
        ensures
            r@ == (Settings { exports: self@.exports.push(export), ..self@ }),
    {
        let mut builder = self;
        builder.exports.push(export);
        builder
    }

    /// Registers the modules in the order given, behind those that are registered already.
    /// None is left out, none is looked at, and one that comes twice is registered twice.
    pub fn add_export_many(self, exports: Vec<M>) -> (r: Self)
        ensures
            r@ == (Settings { exports: self@.exports + exports@, ..self@ }),
    {
        let mut builder = self;
        let mut exports = exports;
        builder.exports.append(&mut exports);
        builder
    }

    /// Hands over the modules, the context and the settings, with the startup sequence for as
    /// many modules as are registered. A service has a context: without one there is nothing
    /// to build.
    pub fn build(self) -> (r: Backend<M>)
        requires
            self@.userdata is Some,
        ensures
            r@ == (Assembled {
                exports: self@.exports,
                userdata: self@.userdata->0,
                config: server_config(self@.port, self@.address),
                state: initial(self@.exports.len() as usize),
            }),
    {
        let config = ServerConfig {
            port: self.port,
            address: self.address,
            ident: IDENT,
            cli_colors: false,
        };
        Backend::new(self.exports, self.userdata.unwrap(), config)
    }
}

/// Registering many modules at once is registering them one after the other.
pub proof fn lemma_many_is_one_by_one<M>(registered: Seq<M>, more: Seq<M>)
    ensures
        registered + more == more.fold_left(registered, |all: Seq<M>, export: M| all.push(export)),
    decreases more.len(),
{
    if more.len() == 0 {
        assert(registered + more =~= registered);
    } else {
        lemma_many_is_one_by_one(registered, more.drop_last());
        assert(registered + more =~= (registered + more.drop_last()).push(more.last()));
    }
}

} // verus!
