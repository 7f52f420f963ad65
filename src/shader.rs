//! Shader sources: the text a shader module is compiled from, or the
//! built-in fallback when loading failed. Reading files happens outside;
//! these types decide what the loaded result is.
use vstd::prelude::*;
use crate::util::{file_name_of, path_name, path_name_to_string};

verus! {

/// A shader that paints every fragment magenta, used when a shader cannot
/// be loaded or compiled.
pub const FALLBACK_WGSL: &'static str = "@vertex\nfn vs_main(@builtin(vertex_index) i: u32) -> @builtin(position) vec4<f32> {\n    let x = f32(i32(i & 1u) * 4 - 1);\n    let y = f32(i32(i >> 1u) * 4 - 1);\n    return vec4<f32>(x, y, 0.0, 1.0);\n}\n\n@fragment\nfn fs_main() -> @location(0) vec4<f32> {\n    return vec4<f32>(1.0, 0.0, 1.0, 1.0);\n}\n";

/// Name reported for the fallback shader.
pub const FALLBACK_NAME: &'static str = "fallback.wgsl";

#[derive(Clone, Copy, Debug, PartialEq, Eq, Structural)]
pub enum ShaderBackend {
    Wgsl,
    Spirv,
}

pub struct ShaderMetadata {
    pub name: String,
    pub path: String,
    pub backend: ShaderBackend,
}

/// A shader's metadata and its source text, if it loaded.
pub struct ShaderSourceNew {
    metadata: ShaderMetadata,
    source: Option<String>,
}

/// What contracts see of a `ShaderSourceNew`: name, path, backend, source.
pub struct ShaderSourceView {
    pub name: Seq<char>,
    pub path: Seq<char>,
    pub backend: ShaderBackend,
    pub source: Option<Seq<char>>,
}

impl View for ShaderSourceNew {
    type V = ShaderSourceView;

    closed spec fn view(&self) -> ShaderSourceView {
        ShaderSourceView {
            name: self.metadata.name@,
            path: self.metadata.path@,
            backend: self.metadata.backend,
            source: match self.source {
                Some(s) => Some(s@),
                None => None,
            },
        }
    }
}

/// The name a shader at `path` is known by: its file name, or nothing.
pub open spec fn shader_name(path: Seq<char>) -> Seq<char> {
    match file_name_of(path) {
        Some(n) => n,
        None => Seq::empty(),
    }
}

impl ShaderSourceNew {
    /// A WGSL shader at `path` whose text (with includes resolved) was read
    /// as `source`, or could not be read (`None`).
    pub fn load_wgsl(path: String, source: Option<String>) -> (r: ShaderSourceNew)
        ensures
            r@ == (ShaderSourceView {
                name: shader_name(path@),
                path: path@,
                backend: ShaderBackend::Wgsl,
                source: match source {
                    Some(s) => Some(s@),
                    None => None,
                },
            }),
    {
        let name = match path_name(path.as_str()) {
            Some(_) => path_name_to_string(path.as_str()),
            None => String::new(),
        };
        ShaderSourceNew { metadata: ShaderMetadata { name, path, backend: ShaderBackend::Wgsl }, source }
    }

    /// Replaces the source with a fresh read of the same file.
    pub fn reload(&mut self, source: Option<String>)
        requires
            old(self)@.backend == ShaderBackend::Wgsl,
        ensures
            final(self)@ == (ShaderSourceView {
                source: match source {
                    Some(s) => Some(s@),
                    None => None,
                },
                ..old(self)@
            }),
    {
        self.source = source;
    }

    /// Drops the source, so that the fallback shader is used.
    pub fn make_fallback(&mut self)
        ensures
            final(self)@ == (ShaderSourceView { source: None, ..old(self)@ }),
    {
        self.source = None;
    }

    pub fn is_fallback(&self) -> (r: bool)
        ensures
            r == (self@.source is None),
    {
        self.source.is_none()
    }

    pub fn backend(&self) -> (r: ShaderBackend)
        ensures
            r == self@.backend,
    {
        self.metadata.backend
    }

    /// The WGSL text, if it loaded. SPIR-V is binary and has no text.
    pub fn source_str(&self) -> (r: Option<&str>)
        requires
            self@.backend == ShaderBackend::Wgsl,
        ensures
            match r {
                Some(t) => self@.source == Some(t@),
                None => self@.source is None,
            },
    {
        match &self.source {
            Some(s) => Some(s.as_str()),
            None => None,
        }
    }
}

/// A loaded shader, or the fallback that stands in for one that failed.
pub enum ShaderSource {
    File { name: String, source: String, path: String, backend: ShaderBackend },
    Fallback { path: String, backend: ShaderBackend },
}

impl ShaderSource {
    /// The shader at `relative_path`, given what reading it gave: the full
    /// path and the text (includes resolved), or `None` when it failed.
    /// A path without a file name counts as a failed load.
    pub fn load(relative_path: String, backend: ShaderBackend, read: Option<(String, String)>) -> (r:
        ShaderSource)
        ensures
            r.loaded_from(relative_path@, backend, read),
    {
        match read {
            Some((path, source)) => match path_name(path.as_str()) {
                Some(name) => ShaderSource::File { name, source, path, backend },
                None => ShaderSource::Fallback { path: relative_path, backend },
            },
            None => ShaderSource::Fallback { path: relative_path, backend },
        }
    }

    /// `self` is what loading from `relative_path` gives when reading it
    /// gave `read`.
    pub open spec fn loaded_from(
        self,
        relative_path: Seq<char>,
        backend: ShaderBackend,
        read: Option<(String, String)>,
    ) -> bool {
        match read {
            Some((path, source)) => match file_name_of(path@) {
                Some(n) => self.is_file_of(n, source@, path@, backend),
                None => self.is_fallback_of(relative_path, backend),
            },
            None => self.is_fallback_of(relative_path, backend),
        }
    }

    pub open spec fn is_file_of(
        self,
        name: Seq<char>,
        source: Seq<char>,
        path: Seq<char>,
        backend: ShaderBackend,
    ) -> bool {
        match self {
            ShaderSource::File { name: n, source: s, path: p, backend: b } => n@ == name && s@ == source
                && p@ == path && b == backend,
            ShaderSource::Fallback { .. } => false,
        }
    }

    pub open spec fn is_fallback_of(self, path: Seq<char>, backend: ShaderBackend) -> bool {
        match self {
            ShaderSource::Fallback { path: p, backend: b } => p@ == path && b == backend,
            ShaderSource::File { .. } => false,
        }
    }

    pub open spec fn spec_path(self) -> Seq<char> {
        match self {
            ShaderSource::File { path, .. } => path@,
            ShaderSource::Fallback { path, .. } => path@,
        }
    }

    pub open spec fn spec_backend(self) -> ShaderBackend {
        match self {
            ShaderSource::File { backend, .. } => backend,
            ShaderSource::Fallback { backend, .. } => backend,
        }
    }

    /// Loads again from this shader's own path, with the same backend.
    pub fn reload(&mut self, read: Option<(String, String)>)
        ensures
            final(self).loaded_from(old(self).spec_path(), old(self).spec_backend(), read),
    {
        let path = self.path().to_string();
        let backend = self.backend();
        *self = ShaderSource::load(path, backend, read);
    }

    /// The fallback for a WGSL shader at `relative_path`.
    pub fn fallback(relative_path: String) -> (r: ShaderSource)
        ensures
            r.is_fallback_of(relative_path@, ShaderBackend::Wgsl),
    {
        ShaderSource::Fallback { path: relative_path, backend: ShaderBackend::Wgsl }
    }

    pub fn name(&self) -> (r: &str)
        ensures
            match self {
                ShaderSource::File { name, .. } => r@ == name@,
                ShaderSource::Fallback { .. } => r@ == FALLBACK_NAME@,
            },
    {
        match self {
            ShaderSource::File { name, .. } => name.as_str(),
            ShaderSource::Fallback { .. } => FALLBACK_NAME,
        }
    }

    pub fn path(&self) -> (r: &str)
        ensures
            r@ == self.spec_path(),
    {
        match self {
            ShaderSource::File { path, .. } => path.as_str(),
            ShaderSource::Fallback { path, .. } => path.as_str(),
        }
    }

    /// The shader text; the built-in fallback for a fallback.
    pub fn source(&self) -> (r: &str)
        ensures
            match self {
                ShaderSource::File { source, .. } => r@ == source@,
                ShaderSource::Fallback { .. } => r@ == FALLBACK_WGSL@,
            },
    {
        match self {
            ShaderSource::File { source, .. } => source.as_str(),
            ShaderSource::Fallback { .. } => FALLBACK_WGSL,
        }
    }

    pub fn backend(&self) -> (r: ShaderBackend)
        ensures
            r == self.spec_backend(),
    {
        match self {
            ShaderSource::File { backend, .. } => *backend,
            ShaderSource::Fallback { backend, .. } => *backend,
        }
    }

    pub fn is_fallback(&self) -> (r: bool)
        ensures
            r == (self is Fallback),
    {
        match self {
            ShaderSource::File { .. } => false,
            ShaderSource::Fallback { .. } => true,
        }
    }
}

} // verus!
