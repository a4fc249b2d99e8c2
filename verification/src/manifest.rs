use vstd::prelude::*;
use vstd::string::*;
use crate::error::DownloadError;

verus! {

/// One content-addressed blob of a model: the media type names the kind of
/// file, `size` is the authoritative expected content length, and the digest
/// addresses the blob endpoint.
#[derive(Debug, Clone)]
pub struct Layer {
    pub media_type: String,
    pub size: u64,
    pub digest: String,
}

/// Mathematical view of a `Layer`.
pub struct LayerV {
    pub media_type: Seq<char>,
    pub size: u64,
    pub digest: Seq<char>,
}

impl View for Layer {
    type V = LayerV;

    open spec fn view(&self) -> LayerV {
        LayerV { media_type: self.media_type@, size: self.size, digest: self.digest@ }
    }
}

/// A parsed registry manifest: the informational schema version and the
/// ordered layers of the model.
#[derive(Debug, Clone)]
pub struct OllamaResponse {
    pub schema_version: u32,
    pub layers: Vec<Layer>,
}

/// Mathematical view of a manifest.
pub struct ManifestV {
    pub schema_version: u32,
    pub layers: Seq<LayerV>,
}

impl View for OllamaResponse {
    type V = ManifestV;

    open spec fn view(&self) -> ManifestV {
        ManifestV { schema_version: self.schema_version, layers: self.layers@.map_values(|l: Layer| l@) }
    }
}

/// Index of the last `'.'` in `s`, or `-1` when `s` holds none.
pub open spec fn last_dot(s: Seq<char>) -> int
    decreases s.len(),
{
    if s.len() == 0 {
        -1
    } else if s.last() == '.' {
        s.len() - 1
    } else {
        last_dot(s.drop_last())
    }
}

/// `last_dot` is correct: it points at a dot with none after it, or at
/// nothing when no position does.
proof fn lemma_last_dot_from(s: Seq<char>, i: int)
    requires
        -1 <= i < s.len() || (i == -1 && s.len() == 0),
        i >= 0 ==> s[i] == '.',
        forall|j: int| i < j < s.len() ==> s[j] != '.',
    ensures
        last_dot(s) == i,
    decreases s.len(),
{
    if s.len() == 0 {
    } else if i == s.len() - 1 {
    } else {
        assert(s.last() != '.');
        lemma_last_dot_from(s.drop_last(), i);
    }
}

/// Sum of the sizes of a sequence of layers.
pub open spec fn total_size_spec(layers: Seq<LayerV>) -> nat
    decreases layers.len(),
{
    if layers.len() == 0 {
        0
    } else {
        total_size_spec(layers.drop_last()) + layers.last().size as nat
    }
}

/// A prefix of the layers never sums to more than all of them.
proof fn lemma_total_size_prefix(layers: Seq<LayerV>, i: int)
    requires
        0 <= i <= layers.len(),
    ensures
        total_size_spec(layers.subrange(0, i)) <= total_size_spec(layers),
    decreases layers.len() - i,
{
    if i == layers.len() {
        assert(layers.subrange(0, i) =~= layers);
    } else {
        lemma_total_size_prefix(layers, i + 1);
        let next = layers.subrange(0, i + 1);
        assert(next.drop_last() =~= layers.subrange(0, i));
        assert(total_size_spec(layers.subrange(0, i)) <= total_size_spec(next));
    }
}

impl Layer {
    /// The local file name this layer maps to: the last dot-delimited
    /// segment of the media type; a media type without a delimiter is
    /// rejected instead of mapped.
    pub fn path(&self) -> (r: Result<&str, DownloadError>)
        ensures
            r is Ok <==> last_dot(self.media_type@) >= 0,
            r matches Ok(p) ==> p@ == self.media_type@.subrange(
                last_dot(self.media_type@) + 1,
                self.media_type@.len() as int,
            ),
            r is Err ==> r matches Err(DownloadError::ParseError(_)),
    {
        let n = self.media_type.as_str().unicode_len();
        let mut i = n;
        while i > 0
            invariant
                i <= n,
                n == self.media_type@.len(),
                forall|j: int| i <= j < n ==> self.media_type@[j] != '.',
            decreases i,
        {
            i = i - 1;
            if self.media_type.as_str().get_char(i) == '.' {
                proof {
                    lemma_last_dot_from(self.media_type@, i as int);
                }
                return Ok(self.media_type.as_str().substring_char(i + 1, n));
            }
        }
        proof {
            lemma_last_dot_from(self.media_type@, -1);
        }
        Err(
            DownloadError::ParseError(
                String::from_str("media type has no dot-delimited suffix"),
            ),
        )
    }
}

/// Indices of the layers whose media type holds no dot and therefore maps
/// to no file name, in ascending order.
pub open spec fn unmappable_spec(layers: Seq<LayerV>) -> Seq<int>
    decreases layers.len(),
{
    if layers.len() == 0 {
        Seq::empty()
    } else {
        unmappable_spec(layers.drop_last()) + (if last_dot(layers.last().media_type) < 0 {
            seq![layers.len() - 1]
        } else {
            Seq::empty()
        })
    }
}

impl OllamaResponse {
    /// The indices of the layers that cannot be mapped to a file name, in
    /// order: exactly the layers a transfer plan skips, so a caller can
    /// report each one instead of losing it silently.
    pub fn unmappable_layers(&self) -> (r: Vec<usize>)
        ensures
            r@.map_values(|u: usize| u as int) == unmappable_spec(self@.layers),
    {
        let mut out: Vec<usize> = Vec::new();
        let mut i: usize = 0;
        while i < self.layers.len()
            invariant
                i <= self.layers@.len(),
                out@.map_values(|u: usize| u as int) == unmappable_spec(
                    self@.layers.subrange(0, i as int),
                ),
            decreases self.layers@.len() - i,
        {
            let ghost pre = self@.layers.subrange(0, i as int);
            let ghost next = self@.layers.subrange(0, i + 1);
            proof {
                assert(next.drop_last() =~= pre);
                assert(next.last() == self@.layers[i as int]);
                assert(self@.layers[i as int] == self.layers@[i as int]@);
            }
            match self.layers[i].path() {
                Ok(_) => {
                    proof {
                        assert(out@.map_values(|u: usize| u as int) =~= unmappable_spec(next));
                    }
                },
                Err(_) => {
                    out.push(i);
                    proof {
                        assert(out@.map_values(|u: usize| u as int) =~= unmappable_spec(next));
                    }
                },
            }
            i = i + 1;
        }
        proof {
            assert(self@.layers.subrange(0, self.layers@.len() as int) =~= self@.layers);
        }
        out
    }

    /// Total expected byte count of the model: the sum of the layer sizes.
    pub fn total_size(&self) -> (r: u64)
        requires
            total_size_spec(self@.layers) <= u64::MAX,
        ensures
            r == total_size_spec(self@.layers),
    {
        let mut acc: u64 = 0;
        let mut i: usize = 0;
        while i < self.layers.len()
            invariant
                i <= self.layers@.len(),
                total_size_spec(self@.layers) <= u64::MAX,
                acc == total_size_spec(self@.layers.subrange(0, i as int)),
            decreases self.layers@.len() - i,
        {
            proof {
                lemma_total_size_prefix(self@.layers, i + 1);
                let next = self@.layers.subrange(0, i + 1);
                assert(next.drop_last() =~= self@.layers.subrange(0, i as int));
                assert(next.last() == self@.layers[i as int]);
                assert(self@.layers[i as int].size == self.layers@[i as int].size);
            }
            acc = acc + self.layers[i].size;
            i = i + 1;
        }
        proof {
            assert(self@.layers.subrange(0, self.layers@.len() as int) =~= self@.layers);
        }
        acc
    }
}

} // verus!
