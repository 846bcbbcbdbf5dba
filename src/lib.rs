//! Retargetable mapping core for spiking network graphs: the graph model,
//! hardware capability manifests, and the partition / placement / routing /
//! timing / resource-check passes that decide how a network fits a target.

pub mod graph;
pub mod hal;
pub mod mapping;
pub mod pipeline;
pub mod riscv;
pub mod runtime;
pub mod telemetry;
pub mod orchestrator;
pub mod mlir;
pub mod mlopt;
pub mod sim;

pub use graph::{
    AttrValue, Connection, DefectView, Dialect, Fixed, Graph, GraphDefect, PlasticityKind, PlasticityRule,
    Population, Probe, ValidationError, VERSION,
};
pub use hal::{builtin_targets, validate_manifest, Capabilities, HalError, ManifestRule, TargetDescriptor, TargetManifest};
pub use mapping::{
    delay_ticks, partition, partition_count, placement, resource_check, routing, timing, Entity, PartitionReport,
    PlacementReport, PlacementStatus, ResourceReport, RoutingReport, RoutingStatus, Strategy, TimingReport, Violation,
    ViolationCode,
};
pub use pipeline::{
    build_pipeline, pass_by_name, DumpFormat, NoOpPass, PipelineConfig, PartitionPass, PassError, PassKind, PassManager, PlacementPass,
    QuantizeWeightsPass, ResourceCheckPass, RoutingPass, RvBareMetalTuningPass, RvControlPlaneDriverGenPass,
    RvKernelFusionAndSchedulingPass, RvLowerToKernelsPass, RvMemoryLayoutAndQuantPass, RvVectorizeKernelsPass, TimingPass,
    ValidatePass,
};
