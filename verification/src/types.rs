//! Values that the parsers produce and the session code consumes.

use vstd::prelude::*;
use vstd::string::*;

use crate::text::opt_text;

verus! {

/// A port forward: connections to `bind_addr:bind_port` are carried to
/// `target_host:target_port`.
pub struct ForwardSpec {
    pub bind_addr: String,
    pub bind_port: u16,
    pub target_host: String,
    pub target_port: u16,
}

/// The contents of a [`ForwardSpec`].
pub struct ForwardModel {
    pub bind_addr: Seq<char>,
    pub bind_port: u16,
    pub target_host: Seq<char>,
    pub target_port: u16,
}

impl View for ForwardSpec {
    type V = ForwardModel;

    open spec fn view(&self) -> ForwardModel {
        ForwardModel {
            bind_addr: self.bind_addr@,
            bind_port: self.bind_port,
            target_host: self.target_host@,
            target_port: self.target_port,
        }
    }
}

impl Clone for ForwardSpec {
    fn clone(&self) -> (r: Self)
        ensures
            r == *self,
    {
        ForwardSpec {
            bind_addr: self.bind_addr.clone(),
            bind_port: self.bind_port,
            target_host: self.target_host.clone(),
            target_port: self.target_port,
        }
    }
}

/// A proxy listener: SOCKS5 or HTTP CONNECT, the target comes per connection.
pub struct DynamicForwardSpec {
    pub bind_addr: String,
    pub bind_port: u16,
}

/// The contents of a [`DynamicForwardSpec`].
pub struct DynamicForwardModel {
    pub bind_addr: Seq<char>,
    pub bind_port: u16,
}

impl View for DynamicForwardSpec {
    type V = DynamicForwardModel;

    open spec fn view(&self) -> DynamicForwardModel {
        DynamicForwardModel { bind_addr: self.bind_addr@, bind_port: self.bind_port }
    }
}

impl Clone for DynamicForwardSpec {
    fn clone(&self) -> (r: Self)
        ensures
            r == *self,
    {
        DynamicForwardSpec { bind_addr: self.bind_addr.clone(), bind_port: self.bind_port }
    }
}

/// A jump host on the way to the destination.
#[derive(Debug)]
pub struct ProxyJumpSpec {
    pub user: Option<String>,
    pub host: String,
    pub port: u16,
}

/// The contents of a [`ProxyJumpSpec`].
pub struct ProxyJumpModel {
    pub user: Option<Seq<char>>,
    pub host: Seq<char>,
    pub port: u16,
}

impl View for ProxyJumpSpec {
    type V = ProxyJumpModel;

    open spec fn view(&self) -> ProxyJumpModel {
        ProxyJumpModel { user: opt_text(self.user), host: self.host@, port: self.port }
    }
}

impl Clone for ProxyJumpSpec {
    fn clone(&self) -> (r: Self)
        ensures
            r == *self,
    {
        ProxyJumpSpec {
            user: match &self.user {
                Some(u) => Some(u.clone()),
                None => None,
            },
            host: self.host.clone(),
            port: self.port,
        }
    }
}

/// Size in bytes and modification time in seconds of a file.
#[derive(Clone, Copy, PartialEq, Eq, Structural, Debug)]
pub struct RemoteFileInfo {
    pub size: u64,
    pub mtime: u64,
}

} // verus!
