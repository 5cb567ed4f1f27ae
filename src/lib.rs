pub mod objects;
pub mod parameter_storage;
pub mod dependency_state_validator;
pub mod workload_operation;
pub mod pending_entry;
pub mod scheduler;
pub mod scheduler_lemmas;
pub mod dispatcher;
pub mod podman_kube_runtime;
