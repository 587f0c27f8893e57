//! The settings of a server.

use std::path::PathBuf;
use vstd::prelude::*;

use crate::exchange::Site;
use crate::message::{Request, Response};
use crate::path::Platform;
use crate::route::text_in;
use crate::text::{converted, decimal, decimal_reads_back, number_of, to_decimal};

verus! {

/// Collects the settings of a server. `F` is the type of the hook that sees each response
/// before it is sent; without a hook it is `()`.
pub struct Builder<F = ()> {
    port: u16,
    host: Option<String>,
    on_request: Option<F>,
    extension_roots: Vec<PathBuf>,
    static_root: Option<PathBuf>,
}

/// What a [`Builder`] holds.
#[verifier::ext_equal]
pub struct Settings<F> {
    pub port: u16,
    pub host: Option<Seq<char>>,
    pub on_request: Option<F>,
    pub extension_roots: Seq<PathBuf>,
    pub static_root: Option<PathBuf>,
}

impl<F> View for Builder<F> {
    type V = Settings<F>;

    closed spec fn view(&self) -> Settings<F> {
        Settings {
            port: self.port,
            host: text_in(self.host),
            on_request: self.on_request,
            extension_roots: self.extension_roots@,
            static_root: self.static_root,
        }
    }
}

/// All that is needed to run a server.
pub struct Server<F> {
    /// The address to listen at.
    pub address: String,
    /// The hook that sees each response before it is sent.
    pub on_request: Option<F>,
    /// What there is to serve.
    pub site: Site,
}

/// The address to listen at: the host, which is `localhost` unless it was set, and the
/// port.
pub open spec fn address_of(host: Option<Seq<char>>, port: u16) -> Seq<char> {
    let name = match host {
        Some(name) => name,
        None => "localhost"@,
    };
    name + seq![':'] + decimal(port as nat)
}

impl Builder {
    /// Settings for a server at a port, with all else unset.
    pub fn new(port: u16) -> (r: Builder)
        ensures
            r@ == (Settings::<()> {
                port,
                host: None,
                on_request: None,
                extension_roots: seq![],
                static_root: None,
            }),
    {
        Builder {
            port,
            host: None,
            on_request: None,
            extension_roots: Vec::new(),
            static_root: None,
        }
    }
}

impl<F> Builder<F> {
    /// Sets the directory whose files are served where no asset is embedded.
    pub fn static_root<P: Into<PathBuf>>(self, root: P) -> (r: Self)
        ensures
            exists|path: PathBuf|
                #[trigger] converted(root, path) && r@ == (Settings {
                    static_root: Some(path),
                    ..self@
                }),
    {
        let path: PathBuf = root.into();
        assert(converted(root, path));
        Builder { static_root: Some(path), ..self }
    }

    /// Sets the host to listen at.
    pub fn host<H: Into<String>>(self, host: H) -> (r: Self)
        ensures
            exists|name: String|
                #[trigger] converted(host, name) && r@ == (Settings {
                    host: Some(name@),
                    ..self@
                }),
    {
        let name: String = host.into();
        assert(converted(host, name));
        Builder { host: Some(name), ..self }
    }

    /// Sets the hook that sees each response before it is sent, in place of the one that
    /// was set.
    pub fn on_request<G: Fn(&Request, &mut Response) + Send + Sync + 'static>(self, f: G) -> (r:
        Builder<G>)
        ensures
            r@ == (Settings {
                port: self@.port,
                host: self@.host,
                on_request: Some(f),
                extension_roots: self@.extension_roots,
                static_root: self@.static_root,
            }),
    {
        Builder {
            port: self.port,
            host: self.host,
            on_request: Some(f),
            extension_roots: self.extension_roots,
            static_root: self.static_root,
        }
    }

    /// Adds a directory below which `/Extension/<absolute path>` may serve files.
    pub fn extension_root<P: Into<PathBuf>>(self, root: P) -> (r: Self)
        ensures
            exists|path: PathBuf|
                #[trigger] converted(root, path) && r@ == (Settings {
                    extension_roots: self@.extension_roots.push(path),
                    ..self@
                }),
    {
        let path: PathBuf = root.into();
        assert(converted(root, path));
        let mut extension_roots = self.extension_roots;
        extension_roots.push(path);
        Builder { extension_roots, ..self }
    }

    /// The server with these settings, on the platform that the program runs on.
    pub fn build(self) -> (r: Server<F>)
        ensures
            r.address@ == address_of(self@.host, self@.port),
            r.on_request == self@.on_request,
            r.site.extension_roots@ == self@.extension_roots,
            r.site.static_root == self@.static_root,
    {
        let mut address = match self.host {
            Some(name) => name,
            None => "localhost".to_owned(),
        };
        let ghost name = address@;
        let port = to_decimal(self.port);
        address.push(':');
        address.append(port.as_str());
        assert(name.push(':') + port@ == name + seq![':'] + port@);
        Server {
            address,
            on_request: self.on_request,
            site: Site {
                platform: Platform::current(),
                extension_roots: self.extension_roots,
                static_root: self.static_root,
            },
        }
    }
}

/// A server listens at its host and port, and at `localhost` where no host was set.
pub proof fn address_is_host_and_port(host: Seq<char>, port: u16)
    ensures
        address_of(Some(host), port) == host + ":"@ + decimal(port as nat),
        address_of(None, port) == "localhost:"@ + decimal(port as nat),
        number_of(decimal(port as nat)) == port,
{
    reveal_strlit(":");
    reveal_strlit("localhost");
    reveal_strlit("localhost:");
    assert(":"@ =~= seq![':']);
    assert("localhost"@ + seq![':'] =~= "localhost:"@);
    decimal_reads_back(port as nat);
}

} // verus!
