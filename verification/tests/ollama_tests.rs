use puma::error::DownloadError;
use puma::manifest::{Layer, OllamaResponse};
use puma::ollama::OllamaDownloader;
use puma::paths::{join_output_path, model_folder_name, split_model_ref};
use puma::provider::Provider;

fn layer(media_type: &str, size: u64, digest: &str) -> Layer {
    Layer { media_type: String::from(media_type), size, digest: String::from(digest) }
}

#[test]
fn folder_name_replaces_separators() {
    assert_eq!(model_folder_name("llama3.1:8b"), "llama3.1--8b");
    assert_eq!(model_folder_name("deepseek-ai/DeepSeek-R1"), "deepseek-ai--DeepSeek-R1");
    assert_eq!(model_folder_name("plain"), "plain");
    assert_eq!(model_folder_name(""), "");
}

#[test]
fn join_puts_one_slash_between() {
    assert_eq!(join_output_path("/tmp/models", "model"), "/tmp/models/model");
}

#[test]
fn split_accepts_exactly_one_separator() {
    let (name, tag) = split_model_ref("llama3.1:8b").unwrap();
    assert_eq!(name, "llama3.1");
    assert_eq!(tag, "8b");
}

#[test]
fn split_rejects_malformed_references() {
    assert!(matches!(split_model_ref("llama3"), Err(DownloadError::ParseError(_))));
    assert!(matches!(split_model_ref("a:b:c"), Err(DownloadError::ParseError(_))));
    assert!(matches!(split_model_ref(":tag"), Err(DownloadError::ParseError(_))));
    assert!(matches!(split_model_ref("name:"), Err(DownloadError::ParseError(_))));
    assert!(matches!(split_model_ref(""), Err(DownloadError::ParseError(_))));
}

#[test]
fn layer_path_takes_last_dot_segment() {
    assert_eq!(layer("application/vnd.ollama.image.model", 1, "d").path().unwrap(), "model");
    assert_eq!(layer("a.b", 1, "d").path().unwrap(), "b");
}

#[test]
fn layer_path_rejects_media_type_without_dot() {
    assert!(matches!(
        layer("nodothere", 1, "d").path(),
        Err(DownloadError::ParseError(_))
    ));
}

#[test]
fn total_size_sums_layer_sizes() {
    let resp = OllamaResponse {
        schema_version: 2,
        layers: vec![layer("a.m", 150_000_000, "x"), layer("a.l", 5_000_000, "y")],
    };
    assert_eq!(resp.total_size(), 155_000_000);
    let empty = OllamaResponse { schema_version: 2, layers: Vec::new() };
    assert_eq!(empty.total_size(), 0);
}

#[test]
fn manifest_url_is_built_from_name_and_tag() {
    let d = OllamaDownloader::new("llama3.1:8b");
    assert_eq!(
        d.manifest_url().unwrap(),
        "https://registry.ollama.ai/v2/library/llama3.1/manifests/8b"
    );
}

#[test]
fn blob_url_is_built_from_name_and_digest() {
    let d = OllamaDownloader::new("llama3.1:8b");
    assert_eq!(
        d.blob_url("sha256:aaa").unwrap(),
        "https://registry.ollama.ai/v2/library/llama3.1/blobs/sha256:aaa"
    );
}

#[test]
fn urls_are_refused_for_malformed_model_reference() {
    let d = OllamaDownloader::new("llama3.1");
    assert!(matches!(d.manifest_url(), Err(DownloadError::ParseError(_))));
    assert!(matches!(d.blob_url("sha256:aaa"), Err(DownloadError::ParseError(_))));
}

#[test]
fn plan_maps_each_layer_to_one_job() {
    let d = OllamaDownloader::new("llama3.1:8b");
    let resp = OllamaResponse {
        schema_version: 2,
        layers: vec![
            layer("application/vnd.ollama.image.model", 150_000_000, "sha256:aaa"),
            layer("application/vnd.ollama.image.license", 5_000_000, "sha256:bbb"),
        ],
    };
    let jobs = d.plan_jobs(&resp, "/tmp/out").unwrap();
    assert_eq!(jobs.len(), 2);
    assert_eq!(jobs[0].url, "https://registry.ollama.ai/v2/library/llama3.1/blobs/sha256:aaa");
    assert_eq!(jobs[0].output_path, "/tmp/out/model");
    assert_eq!(jobs[0].content_length, 150_000_000);
    assert_eq!(jobs[1].url, "https://registry.ollama.ai/v2/library/llama3.1/blobs/sha256:bbb");
    assert_eq!(jobs[1].output_path, "/tmp/out/license");
    assert_eq!(jobs[1].content_length, 5_000_000);
}

#[test]
fn plan_skips_layers_without_a_mappable_name() {
    let d = OllamaDownloader::new("llama3.1:8b");
    let resp = OllamaResponse {
        schema_version: 2,
        layers: vec![layer("nodothere", 7, "sha256:ccc"), layer("a.model", 9, "sha256:ddd")],
    };
    let jobs = d.plan_jobs(&resp, "/tmp/out").unwrap();
    assert_eq!(jobs.len(), 1);
    assert_eq!(jobs[0].output_path, "/tmp/out/model");
    assert_eq!(jobs[0].content_length, 9);
}

#[test]
fn unmappable_layers_reports_exactly_the_skipped_indices() {
    let resp = OllamaResponse {
        schema_version: 2,
        layers: vec![
            layer("nodothere", 7, "sha256:ccc"),
            layer("a.model", 9, "sha256:ddd"),
            layer("alsonodot", 3, "sha256:eee"),
        ],
    };
    assert_eq!(resp.unmappable_layers(), vec![0, 2]);
    let d = OllamaDownloader::new("llama3.1:8b");
    let jobs = d.plan_jobs(&resp, "/tmp/out").unwrap();
    assert_eq!(jobs.len() + resp.unmappable_layers().len(), resp.layers.len());
    let clean = OllamaResponse { schema_version: 2, layers: vec![layer("a.b", 1, "x")] };
    assert!(clean.unmappable_layers().is_empty());
}

#[test]
fn plan_is_refused_for_malformed_model_reference() {
    let d = OllamaDownloader::new("noseparator");
    let resp = OllamaResponse { schema_version: 2, layers: Vec::new() };
    assert!(matches!(d.plan_jobs(&resp, "/tmp/out"), Err(DownloadError::ParseError(_))));
}

#[test]
fn default_provider_is_huggingface() {
    assert_eq!(Provider::default(), Provider::Huggingface);
}
