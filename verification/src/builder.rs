//! The server builder: the server-level settings of a programmatically
//! assembled server, and the DrasiLib builders of its instances.

use vstd::prelude::*;
use crate::config_value::opt_chars;
use crate::text::owned;

verus! {

/// Builder for a server assembled in code. `B` is the builder of one
/// DrasiLib instance; the first one is the primary instance, which the
/// instance-level settings (sources, reactions, queries, providers) apply to.
pub struct DrasiServerBuilder<B> {
    core_builders: Vec<B>,
    enable_api: bool,
    port: Option<u16>,
    host: Option<String>,
    config_file_path: Option<String>,
}

/// The server-level settings a builder holds.
pub struct BuilderView {
    pub instance_count: nat,
    pub enable_api: bool,
    pub port: Option<u16>,
    pub host: Option<Seq<char>>,
    pub config_file_path: Option<Seq<char>>,
}

impl<B> View for DrasiServerBuilder<B> {
    type V = BuilderView;

    closed spec fn view(&self) -> BuilderView {
        BuilderView {
            instance_count: self.core_builders@.len(),
            enable_api: self.enable_api,
            port: self.port,
            host: opt_chars(self.host),
            config_file_path: opt_chars(self.config_file_path),
        }
    }
}

impl<B> DrasiServerBuilder<B> {
    /// The builders of the instances, the primary first.
    pub closed spec fn builders(&self) -> Seq<B> {
        self.core_builders@
    }

    /// A builder with one (primary) instance, the API disabled, and
    /// `127.0.0.1:8080` as the address it would listen on.
    pub fn new(primary: B) -> (r: DrasiServerBuilder<B>)
        ensures
            r@ == (BuilderView {
                instance_count: 1,
                enable_api: false,
                port: Some(8080u16),
                host: Some("127.0.0.1"@),
                config_file_path: None,
            }),
            r.builders() == seq![primary],
    {
        let mut core_builders: Vec<B> = Vec::new();
        core_builders.push(primary);
        assert(core_builders@ =~= seq![primary]);
        DrasiServerBuilder {
            core_builders,
            enable_api: false,
            port: Some(8080),
            host: Some(owned("127.0.0.1")),
            config_file_path: None,
        }
    }

    /// Takes the primary instance's builder out, to apply an instance-level
    /// setting; `put_primary` puts the result back.
    pub fn take_primary(self) -> (r: (B, DrasiServerBuilder<B>))
        requires
            self.builders().len() >= 1,
        ensures
            r.0 == self.builders()[0],
            r.1@ == (BuilderView { instance_count: (self@.instance_count - 1) as nat, ..self@ }),
            r.1.builders() == self.builders().drop_first(),
    {
        let mut s = self;
        let b = s.core_builders.remove(0);
        assert(s.core_builders@ =~= self.builders().drop_first());
        (b, s)
    }

    /// Puts the primary instance's builder back in front.
    pub fn put_primary(self, primary: B) -> (r: DrasiServerBuilder<B>)
        ensures
            r@ == (BuilderView { instance_count: self@.instance_count + 1, ..self@ }),
            r.builders() == seq![primary] + self.builders(),
    {
        let mut s = self;
        s.core_builders.insert(0, primary);
        assert(s.core_builders@ =~= seq![primary] + self.builders());
        s
    }

    /// Adds another instance.
    pub fn add_instance_builder(self, builder: B) -> (r: DrasiServerBuilder<B>)
        ensures
            r@ == (BuilderView { instance_count: self@.instance_count + 1, ..self@ }),
            r.builders() == self.builders().push(builder),
    {
        let mut s = self;
        s.core_builders.push(builder);
        s
    }

    /// Enables the web API.
    pub fn enable_api(self) -> (r: DrasiServerBuilder<B>)
        ensures
            r@ == (BuilderView { enable_api: true, ..self@ }),
            r.builders() == self.builders(),
    {
        let mut s = self;
        s.enable_api = true;
        s
    }

    /// Sets the API port, which enables the API.
    pub fn with_port(self, port: u16) -> (r: DrasiServerBuilder<B>)
        ensures
            r@ == (BuilderView { enable_api: true, port: Some(port), ..self@ }),
            r.builders() == self.builders(),
    {
        let mut s = self;
        s.enable_api = true;
        s.port = Some(port);
        s
    }

    /// Sets the API host and port, which enables the API.
    pub fn with_host_port(self, host: String, port: u16) -> (r: DrasiServerBuilder<B>)
        ensures
            r@ == (BuilderView { enable_api: true, port: Some(port), host: Some(host@), ..self@ }),
            r.builders() == self.builders(),
    {
        let mut s = self;
        s.enable_api = true;
        s.host = Some(host);
        s.port = Some(port);
        s
    }

    /// Sets the config file that changes are persisted to.
    pub fn with_config_file(self, path: String) -> (r: DrasiServerBuilder<B>)
        ensures
            r@ == (BuilderView { config_file_path: Some(path@), ..self@ }),
            r.builders() == self.builders(),
    {
        let mut s = self;
        s.config_file_path = Some(path);
        s
    }

    /// The settings of the server to build: whether the API is enabled, the
    /// host (default `127.0.0.1`), the port (default 8080) and the config
    /// file; and the instance builders, the primary first.
    pub fn into_parts(self) -> (r: (bool, String, u16, Option<String>, Vec<B>))
        ensures
            r.0 == self@.enable_api,
            r.1@ == match self@.host {
                Some(h) => h,
                None => "127.0.0.1"@,
            },
            r.2 == match self@.port {
                Some(p) => p,
                None => 8080u16,
            },
            opt_chars(r.3) == self@.config_file_path,
            r.4@ == self.builders(),
    {
        let host = match self.host {
            Some(h) => h,
            None => owned("127.0.0.1"),
        };
        let port = match self.port {
            Some(p) => p,
            None => 8080,
        };
        (self.enable_api, host, port, self.config_file_path, self.core_builders)
    }
}

} // verus!
