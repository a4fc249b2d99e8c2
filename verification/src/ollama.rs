use vstd::prelude::*;
use vstd::string::*;
use crate::error::DownloadError;
use crate::manifest::{last_dot, unmappable_spec, Layer, LayerV, OllamaResponse};
use crate::paths::{join_output_path, name_of, split_model_ref, tag_of, valid_model_ref};

verus! {

/// URL of the manifest endpoint for model `name` at `tag`.
pub open spec fn manifest_url_of(name: Seq<char>, tag: Seq<char>) -> Seq<char> {
    "https://registry.ollama.ai/v2/library/"@ + name + "/manifests/"@ + tag
}

/// URL of the blob endpoint for the layer `digest` of model `name`.
pub open spec fn blob_url_of(name: Seq<char>, digest: Seq<char>) -> Seq<char> {
    "https://registry.ollama.ai/v2/library/"@ + name + "/blobs/"@ + digest
}

/// One layer's transfer, resolved to plain values: where to fetch, where to
/// write, and how many bytes to expect.
#[derive(Debug, Clone)]
pub struct TransferJob {
    pub url: String,
    pub output_path: String,
    pub content_length: u64,
}

/// Mathematical view of a `TransferJob`.
pub struct TransferJobV {
    pub url: Seq<char>,
    pub output_path: Seq<char>,
    pub content_length: u64,
}

impl View for TransferJob {
    type V = TransferJobV;

    open spec fn view(&self) -> TransferJobV {
        TransferJobV {
            url: self.url@,
            output_path: self.output_path@,
            content_length: self.content_length,
        }
    }
}

/// The transfer job one layer of model `name` maps to, under `dest_dir`.
pub open spec fn layer_job_spec(name: Seq<char>, dest_dir: Seq<char>, l: LayerV) -> TransferJobV
    recommends
        last_dot(l.media_type) >= 0,
{
    TransferJobV {
        url: blob_url_of(name, l.digest),
        output_path: dest_dir + "/"@ + l.media_type.subrange(
            last_dot(l.media_type) + 1,
            l.media_type.len() as int,
        ),
        content_length: l.size,
    }
}

/// The jobs of a whole manifest, in layer order; layers whose media type has
/// no dot-delimited suffix cannot be mapped to a file name and are skipped.
pub open spec fn plan_spec(name: Seq<char>, dest_dir: Seq<char>, layers: Seq<LayerV>) -> Seq<
    TransferJobV,
>
    decreases layers.len(),
{
    if layers.len() == 0 {
        Seq::empty()
    } else {
        plan_spec(name, dest_dir, layers.drop_last()) + (if last_dot(layers.last().media_type)
            >= 0 {
            seq![layer_job_spec(name, dest_dir, layers.last())]
        } else {
            Seq::empty()
        })
    }
}

/// Pulls models from the Ollama registry: resolves the manifest URL from a
/// `name:tag` reference and plans one transfer job per layer.
pub struct OllamaDownloader {
    pub model_name: String,
}

impl OllamaDownloader {
    /// A downloader for the model named by `model_name` (a `name:tag`
    /// reference).
    pub fn new(model_name: &str) -> (r: Self)
        ensures
            r.model_name@ == model_name@,
    {
        OllamaDownloader { model_name: model_name.to_owned() }
    }

    /// The manifest endpoint URL for this downloader's model; a malformed
    /// model reference is rejected.
    pub fn manifest_url(&self) -> (r: Result<String, DownloadError>)
        ensures
            r is Ok <==> valid_model_ref(self.model_name@),
            r matches Ok(u) ==> u@ == manifest_url_of(
                name_of(self.model_name@),
                tag_of(self.model_name@),
            ),
            r is Err ==> r matches Err(DownloadError::ParseError(_)),
    {
        match split_model_ref(self.model_name.as_str()) {
            Ok((name, tag)) => {
                let mut u = String::from_str("https://registry.ollama.ai/v2/library/");
                u.append(name.as_str());
                u.append("/manifests/");
                u.append(tag.as_str());
                proof {
                    assert(u@ =~= manifest_url_of(
                        name_of(self.model_name@),
                        tag_of(self.model_name@),
                    ));
                }
                Ok(u)
            },
            Err(e) => Err(e),
        }
    }

    /// The blob endpoint URL for one digest of this downloader's model.
    pub fn blob_url(&self, digest: &str) -> (r: Result<String, DownloadError>)
        ensures
            r is Ok <==> valid_model_ref(self.model_name@),
            r matches Ok(u) ==> u@ == blob_url_of(name_of(self.model_name@), digest@),
            r is Err ==> r matches Err(DownloadError::ParseError(_)),
    {
        match split_model_ref(self.model_name.as_str()) {
            Ok((name, _tag)) => {
                let mut u = String::from_str("https://registry.ollama.ai/v2/library/");
                u.append(name.as_str());
                u.append("/blobs/");
                u.append(digest);
                proof {
                    assert(u@ =~= blob_url_of(name_of(self.model_name@), digest@));
                }
                Ok(u)
            },
            Err(e) => Err(e),
        }
    }

    /// The transfer job for one layer: blob URL from the digest, output path
    /// from the media type's suffix under `dest_dir`, expected length from
    /// the layer size.
    pub fn layer_job(&self, layer: &Layer, dest_dir: &str) -> (r: Result<
        TransferJob,
        DownloadError,
    >)
        ensures
            r is Ok <==> valid_model_ref(self.model_name@) && last_dot(layer@.media_type) >= 0,
            r matches Ok(j) ==> j@ == layer_job_spec(
                name_of(self.model_name@),
                dest_dir@,
                layer@,
            ),
            r is Err ==> r matches Err(DownloadError::ParseError(_)),
    {
        let url = match self.blob_url(layer.digest.as_str()) {
            Ok(u) => u,
            Err(e) => {
                return Err(e);
            },
        };
        let name = match layer.path() {
            Ok(p) => p,
            Err(e) => {
                return Err(e);
            },
        };
        let output_path = join_output_path(dest_dir, name);
        Ok(TransferJob { url, output_path, content_length: layer.size })
    }

    /// Plans the transfer jobs of a resolved manifest, in layer order;
    /// layers without a mappable file name are skipped, a malformed model
    /// reference rejects the whole plan.
    pub fn plan_jobs(&self, resp: &OllamaResponse, dest_dir: &str) -> (r: Result<
        Vec<TransferJob>,
        DownloadError,
    >)
        ensures
            r is Ok <==> valid_model_ref(self.model_name@),
            r matches Ok(jobs) ==> jobs@.map_values(|j: TransferJob| j@) == plan_spec(
                name_of(self.model_name@),
                dest_dir@,
                resp@.layers,
            ),
            r is Err ==> r matches Err(DownloadError::ParseError(_)),
    {
        match split_model_ref(self.model_name.as_str()) {
            Ok(_) => {},
            Err(e) => {
                return Err(e);
            },
        }
        let mut jobs: Vec<TransferJob> = Vec::new();
        let mut i: usize = 0;
        while i < resp.layers.len()
            invariant
                i <= resp.layers@.len(),
                valid_model_ref(self.model_name@),
                jobs@.map_values(|j: TransferJob| j@) == plan_spec(
                    name_of(self.model_name@),
                    dest_dir@,
                    resp@.layers.subrange(0, i as int),
                ),
            decreases resp.layers@.len() - i,
        {
            let ghost pre = resp@.layers.subrange(0, i as int);
            let ghost next = resp@.layers.subrange(0, i + 1);
            proof {
                assert(next.drop_last() =~= pre);
                assert(next.last() == resp@.layers[i as int]);
                assert(resp@.layers[i as int] == resp.layers@[i as int]@);
            }
            match self.layer_job(&resp.layers[i], dest_dir) {
                Ok(job) => {
                    jobs.push(job);
                    proof {
                        assert(jobs@.map_values(|j: TransferJob| j@) =~= plan_spec(
                            name_of(self.model_name@),
                            dest_dir@,
                            next,
                        ));
                    }
                },
                Err(_) => {
                    proof {
                        assert(jobs@.map_values(|j: TransferJob| j@) =~= plan_spec(
                            name_of(self.model_name@),
                            dest_dir@,
                            next,
                        ));
                    }
                },
            }
            i = i + 1;
        }
        proof {
            assert(resp@.layers.subrange(0, resp.layers@.len() as int) =~= resp@.layers);
        }
        Ok(jobs)
    }
}

/// Every layer is accounted for: it either yields one planned job or is
/// reported unmappable, so a caller that reads both misses none.
pub proof fn lemma_plan_accounts_for_all(
    name: Seq<char>,
    dest_dir: Seq<char>,
    layers: Seq<LayerV>,
)
    ensures
        plan_spec(name, dest_dir, layers).len() + unmappable_spec(layers).len() == layers.len(),
    decreases layers.len(),
{
    if layers.len() > 0 {
        lemma_plan_accounts_for_all(name, dest_dir, layers.drop_last());
    }
}

} // verus!
