use greentic_pack::telemetry::{
    telemetry_export_plan, ExportMode, ExportPlan, TelemetryExporter, TelemetrySettings,
};

fn settings(enabled: bool, exporter: TelemetryExporter) -> TelemetrySettings {
    TelemetrySettings { enabled, exporter, endpoint: Some("http://collector:4317".to_string()) }
}

#[test]
fn disabled_telemetry_installs_nothing() {
    assert_eq!(telemetry_export_plan(&settings(false, TelemetryExporter::Otlp)), None);
    assert_eq!(telemetry_export_plan(&settings(true, TelemetryExporter::NoExporter)), None);
}

#[test]
fn otlp_exports_to_endpoint() {
    assert_eq!(
        telemetry_export_plan(&settings(true, TelemetryExporter::Otlp)),
        Some(ExportPlan {
            mode: ExportMode::OtlpGrpc,
            endpoint: Some("http://collector:4317".to_string()),
        })
    );
}

#[test]
fn stdout_exports_without_endpoint() {
    assert_eq!(
        telemetry_export_plan(&settings(true, TelemetryExporter::Stdout)),
        Some(ExportPlan { mode: ExportMode::JsonStdout, endpoint: None })
    );
}

#[test]
fn cloud_exporters_use_otlp() {
    for exporter in [TelemetryExporter::Gcp, TelemetryExporter::Azure, TelemetryExporter::Aws] {
        assert_eq!(
            telemetry_export_plan(&settings(true, exporter)),
            Some(ExportPlan {
                mode: ExportMode::OtlpGrpc,
                endpoint: Some("http://collector:4317".to_string()),
            })
        );
    }
}
