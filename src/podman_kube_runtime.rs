use vstd::prelude::*;

verus! {

/// The runtime adapter that deploys workloads given as Kubernetes manifests
/// through `podman kube play`.
#[derive(Debug, Clone)]
pub struct PodmanKubeRuntime {}

#[derive(Debug)]
pub struct PodmanKubeConfig {}

/// Identifies a deployed manifest. Podman gives no id for a played manifest,
/// and tearing its resources down takes the complete manifest.
#[derive(Clone, Debug)]
pub struct PodmanKubeWorkloadId {
    pub manifest: String,
}

#[derive(Debug)]
pub struct PlayKubeOutput {}

#[derive(Debug)]
pub struct PlayKubeError {}

impl PodmanKubeRuntime {
    /// The name under which workloads select this runtime.
    pub fn name(&self) -> (r: String)
        ensures
            r@ == "podman-kube"@,
    {
        String::from_str("podman-kube")
    }
}

} // verus!
