//! Rendering backend kinds and the preference-ordered backend prober.
use vstd::prelude::*;

verus! {

/// Kinds of rendering backends.
#[derive(Debug, Clone, Copy, PartialEq, Eq)]
pub enum BackendType {
    /// CPU rasterizer
    Software,
    /// Vulkan GPU backend
    Vulkan,
    /// Metal GPU backend
    Metal,
    /// WebGPU backend
    WebGPU,
    /// WebGL backend
    WebGL,
}

/// Display name of a backend kind.
pub open spec fn backend_name(b: BackendType) -> &'static str {
    match b {
        BackendType::Software => "Software",
        BackendType::Vulkan => "Vulkan",
        BackendType::Metal => "Metal",
        BackendType::WebGPU => "WebGPU",
        BackendType::WebGL => "WebGL",
    }
}

impl BackendType {
    /// Display name of the backend kind.
    pub fn as_str(&self) -> (s: &'static str)
        ensures
            s == backend_name(*self),
    {
        match self {
            BackendType::Software => "Software",
            BackendType::Vulkan => "Vulkan",
            BackendType::Metal => "Metal",
            BackendType::WebGPU => "WebGPU",
            BackendType::WebGL => "WebGL",
        }
    }
}

/// Whether this build can run a backend of the given kind: the library is built
/// with the software rasterizer for a native (non-web) target, without the
/// Vulkan and Metal backends.
pub open spec fn backend_available(b: BackendType) -> bool {
    b == BackendType::Software
}

/// Backend prober for automatic backend selection
pub struct BackendProber {
    preferred_order: Vec<BackendType>,
}

impl BackendProber {
    /// Backends in the order in which they are tried.
    pub closed spec fn order(&self) -> Seq<BackendType> {
        self.preferred_order@
    }

    /// Create a new backend prober with the default preferences of this build.
    pub fn new() -> (p: Self)
        ensures
            p.order() == seq![BackendType::Software],
    {
        let mut preferred_order = Vec::new();
        preferred_order.push(BackendType::Software);
        BackendProber { preferred_order }
    }

    /// Create prober with custom backend preference order
    pub fn with_preference(preferred_order: Vec<BackendType>) -> (p: Self)
        ensures
            p.order() == preferred_order@,
    {
        BackendProber { preferred_order }
    }

    /// Check if a backend is available
    pub fn is_backend_available(&self, backend_type: BackendType) -> (b: bool)
        ensures
            b == backend_available(backend_type),
    {
        match backend_type {
            BackendType::Software => true,
            _ => false,
        }
    }

    /// Get list of available backends, in preference order
    pub fn available_backends(&self) -> (v: Vec<BackendType>)
        ensures
            v@ == self.order().filter(|b: BackendType| backend_available(b)),
    {
        let mut out: Vec<BackendType> = Vec::new();
        let mut i: usize = 0;
        while i < self.preferred_order.len()
            invariant
                i <= self.preferred_order@.len(),
                out@ == self.preferred_order@.take(i as int).filter(|b: BackendType| backend_available(b)),
            decreases self.preferred_order@.len() - i,
        {
            let b = self.preferred_order[i];
            proof {
                reveal_with_fuel(Seq::filter, 1);
                assert(self.preferred_order@.take(i + 1).drop_last() =~= self.preferred_order@.take(i as int));
            }
            if self.is_backend_available(b) {
                out.push(b);
            }
            i = i + 1;
        }
        assert(self.preferred_order@.take(self.preferred_order@.len() as int) =~= self.preferred_order@);
        out
    }
}

impl Default for BackendProber {
    fn default() -> (p: Self)
        ensures
            p.order() == seq![BackendType::Software],
    {
        Self::new()
    }
}

} // verus!
