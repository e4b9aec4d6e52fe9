//! Which telemetry exporter the configuration asks for.

use vstd::prelude::*;

verus! {

/// The exporters a telemetry configuration can name.
#[derive(Clone, Copy, Debug, PartialEq, Eq)]
pub enum TelemetryExporter {
    Otlp,
    Stdout,
    /// Google Cloud; this crate chooses to reach it through its OTLP endpoint.
    Gcp,
    /// Azure; this crate chooses to reach it through its OTLP endpoint.
    Azure,
    /// AWS; this crate chooses to reach it through its OTLP endpoint.
    Aws,
    /// No exporter: telemetry stays off.
    NoExporter,
}

/// The telemetry settings the decision reads (the sampling ratio is passed on as it is).
#[derive(Clone, Debug, PartialEq, Eq)]
pub struct TelemetrySettings {
    pub enabled: bool,
    pub exporter: TelemetryExporter,
    pub endpoint: Option<String>,
}

/// How spans are exported.
#[derive(Clone, Copy, Debug, PartialEq, Eq)]
pub enum ExportMode {
    OtlpGrpc,
    JsonStdout,
}

/// The exporter to install.
#[derive(Clone, Debug, PartialEq, Eq)]
pub struct ExportPlan {
    pub mode: ExportMode,
    pub endpoint: Option<String>,
}

/// The exporter that `install_with_config` sets up for the settings: none when telemetry
/// is disabled or no exporter is named; OTLP over gRPC to the configured endpoint for OTLP;
/// JSON on standard output, with no endpoint. For the cloud exporters (Gcp, Azure, Aws)
/// this crate's own choice is OTLP over gRPC to the configured endpoint.
pub fn telemetry_export_plan(settings: &TelemetrySettings) -> (r: Option<ExportPlan>)
    ensures
        !settings.enabled ==> r is None,
        settings.enabled ==> match settings.exporter {
            TelemetryExporter::NoExporter => r is None,
            TelemetryExporter::Otlp | TelemetryExporter::Gcp | TelemetryExporter::Azure
            | TelemetryExporter::Aws => r == Some(
                ExportPlan { mode: ExportMode::OtlpGrpc, endpoint: settings.endpoint },
            ),
            TelemetryExporter::Stdout => r == Some(
                ExportPlan { mode: ExportMode::JsonStdout, endpoint: None },
            ),
        },
{
    if !settings.enabled {
        return None;
    }
    match settings.exporter {
        TelemetryExporter::NoExporter => None,
        TelemetryExporter::Otlp | TelemetryExporter::Gcp | TelemetryExporter::Azure
        | TelemetryExporter::Aws => {
            let endpoint = match &settings.endpoint {
                Some(e) => Some(e.clone()),
                None => None,
            };
            Some(ExportPlan { mode: ExportMode::OtlpGrpc, endpoint })
        },
        TelemetryExporter::Stdout => Some(ExportPlan { mode: ExportMode::JsonStdout, endpoint: None }),
    }
}

} // verus!
