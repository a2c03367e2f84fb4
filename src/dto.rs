use vstd::prelude::*;

use std::collections::BTreeMap;
use std::collections::HashMap;

verus! {

/// A port that a container exposes.
#[derive(Debug, Clone)]
pub struct ContainerPort {
    pub name: Option<String>,
    pub container_port: i32,
    pub host_port: Option<i32>,
    pub protocol: String,
}

/// An environment variable of a container; `value_from` names its source.
#[derive(Debug, Clone)]
pub struct EnvVar {
    pub name: String,
    pub value: Option<String>,
    pub value_from: Option<String>,
}

/// Where a volume is mounted in a container.
#[derive(Debug, Clone)]
pub struct VolumeMount {
    pub name: String,
    pub mount_path: String,
    pub sub_path: Option<String>,
    pub read_only: bool,
}

/// A liveness, readiness or startup probe of a container.
#[derive(Debug, Clone)]
pub struct ProbeInfo {
    pub probe_type: String,
    pub handler_type: String,
    pub details: String,
    pub initial_delay_seconds: i32,
    pub period_seconds: i32,
    pub timeout_seconds: i32,
    pub success_threshold: i32,
    pub failure_threshold: i32,
}

/// One container of a pod, with its resources and probes.
#[derive(Debug, Clone)]
pub struct ContainerInfo {
    pub name: String,
    pub image: String,
    pub image_pull_policy: String,
    pub ready: bool,
    pub restart_count: i32,
    pub state: String,
    pub cpu_request: Option<String>,
    pub cpu_limit: Option<String>,
    pub memory_request: Option<String>,
    pub memory_limit: Option<String>,
    pub ports: Vec<ContainerPort>,
    pub env: Vec<EnvVar>,
    pub volume_mounts: Vec<VolumeMount>,
    pub probes: Vec<ProbeInfo>,
}

/// A volume of a pod and its kind.
#[derive(Debug, Clone)]
pub struct VolumeInfo {
    pub name: String,
    pub volume_type: String,
}

/// What the GUI shows of a pod.
#[derive(Debug, Clone)]
pub struct PodSummary {
    pub name: String,
    pub namespace: String,
    pub status: String,
    pub age: String,
    pub creation_timestamp: Option<String>,
    pub containers: usize,
    pub restarts: i32,
    pub node: String,
    pub qos: String,
    pub controlled_by: String,
    pub labels: BTreeMap<String, String>,
    pub annotations: BTreeMap<String, String>,
    pub pod_ip: String,
    pub host_ip: String,
    pub service_account: String,
    pub priority_class: String,
    pub container_details: Vec<ContainerInfo>,
    pub volumes: Vec<VolumeInfo>,
    pub conditions: Vec<PodCondition>,
}

/// A condition of a pod.
#[derive(Debug, Clone)]
pub struct PodCondition {
    pub condition_type: String,
    pub status: String,
    pub reason: Option<String>,
    pub message: Option<String>,
    pub last_transition_time: Option<String>,
}

/// An event that concerns a pod.
#[derive(Debug, Clone)]
pub struct PodEventInfo {
    pub event_type: String,
    pub reason: String,
    pub message: String,
    pub count: i32,
    pub first_timestamp: Option<String>,
    pub last_timestamp: Option<String>,
    pub source: String,
}

/// What the GUI lists of a workload or other namespaced resource.
#[derive(Debug, Clone)]
pub struct WorkloadSummary {
    pub id: String,
    pub name: String,
    pub namespace: String,
    pub age: String,
    pub labels: BTreeMap<String, String>,
    pub status: String,
    pub images: Vec<String>,
    pub created_at: i64,
}

/// An event that concerns a workload.
#[derive(Debug, Clone)]
pub struct K8sEventInfo {
    pub event_type: String,
    pub reason: String,
    pub message: String,
    pub count: i32,
    pub first_timestamp: Option<String>,
    pub last_timestamp: Option<String>,
    pub source: String,
}

/// A warning event of the cluster dashboard.
#[derive(Debug, Clone)]
pub struct WarningEvent {
    pub message: String,
    pub object: String,
    pub type_: String,
    pub age: String,
    pub count: i32,
}

/// The details of a deployment.
#[derive(Debug, Clone)]
pub struct DeploymentDetails {
    pub name: String,
    pub namespace: String,
    pub uid: String,
    pub created_at: String,
    pub labels: HashMap<String, String>,
    pub annotations: HashMap<String, String>,
    pub replicas_desired: i32,
    pub replicas_updated: i32,
    pub replicas_total: i32,
    pub replicas_available: i32,
    pub replicas_unavailable: i32,
    pub strategy_type: String,
    pub selector: HashMap<String, String>,
    pub conditions: Vec<DeploymentCondition>,
    pub images: Vec<String>,
}

/// A condition of a deployment.
#[derive(Debug, Clone)]
pub struct DeploymentCondition {
    pub condition_type: String,
    pub status: String,
    pub reason: Option<String>,
    pub message: Option<String>,
    pub last_transition_time: Option<String>,
}

/// A pod that belongs to a deployment.
#[derive(Debug, Clone)]
pub struct DeploymentPodInfo {
    pub name: String,
    pub namespace: String,
    pub status: String,
    pub age: String,
    pub ready: String,
    pub restarts: i32,
    pub node: String,
    pub pod_ip: String,
}

/// A replica set of a deployment.
#[derive(Debug, Clone)]
pub struct ReplicaSetInfo {
    pub name: String,
    pub namespace: String,
    pub revision: String,
    pub desired: i32,
    pub current: i32,
    pub ready: i32,
    pub age: String,
    pub images: Vec<String>,
    pub created_at: String,
}

/// The details of a stateful set.
#[derive(Debug, Clone)]
pub struct StatefulSetDetails {
    pub name: String,
    pub namespace: String,
    pub uid: String,
    pub created_at: String,
    pub labels: HashMap<String, String>,
    pub annotations: HashMap<String, String>,
    pub replicas_desired: i32,
    pub replicas_current: i32,
    pub replicas_ready: i32,
    pub replicas_updated: i32,
    pub replicas_available: i32,
    pub update_strategy_type: String,
    pub pod_management_policy: String,
    pub service_name: String,
    pub selector: HashMap<String, String>,
    pub conditions: Vec<StatefulSetCondition>,
    pub images: Vec<String>,
}

/// A condition of a stateful set.
#[derive(Debug, Clone)]
pub struct StatefulSetCondition {
    pub condition_type: String,
    pub status: String,
    pub reason: Option<String>,
    pub message: Option<String>,
    pub last_transition_time: Option<String>,
}

/// A pod that belongs to a stateful set.
#[derive(Debug, Clone)]
pub struct StatefulSetPodInfo {
    pub name: String,
    pub namespace: String,
    pub status: String,
    pub age: String,
    pub ready: String,
    pub restarts: i32,
    pub node: String,
    pub pod_ip: String,
}

/// Application settings: extra kubeconfig files to read.
#[derive(Debug, Clone)]
pub struct AppConfig {
    pub kubeconfig_paths: Vec<String>,
}

/// A change to a watched pod, as the GUI receives it.
#[derive(Debug, Clone)]
pub enum PodEvent {
    Added(PodSummary),
    Modified(PodSummary),
    Deleted(PodSummary),
    Restarted(Vec<PodSummary>),
}

impl Default for AppConfig {
    /// Settings with no extra kubeconfig file.
    fn default() -> (r: AppConfig)
        ensures
            r.kubeconfig_paths@.len() == 0,
    {
        AppConfig { kubeconfig_paths: Vec::new() }
    }
}

} // verus!
