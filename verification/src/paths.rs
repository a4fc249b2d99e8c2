use vstd::prelude::*;
use vstd::string::*;
use crate::error::DownloadError;

verus! {

/// The characters of a model's local folder name: every `':'` and `'/'` of
/// the model name becomes `"--"`, all else is kept.
pub open spec fn folder_name_chars(s: Seq<char>) -> Seq<char>
    decreases s.len(),
{
    if s.len() == 0 {
        Seq::empty()
    } else {
        folder_name_chars(s.drop_last()) + (if s.last() == ':' || s.last() == '/' {
            seq!['-', '-']
        } else {
            seq![s.last()]
        })
    }
}

/// Derives the local folder name of a model: `':'` and `'/'` are replaced by
/// `"--"` so the name is safe as a single path component.
pub fn model_folder_name(model_name: &str) -> (r: String)
    ensures
        r@ == folder_name_chars(model_name@),
{
    let n = model_name.unicode_len();
    let mut r = String::new();
    let mut i: usize = 0;
    while i < n
        invariant
            i <= n,
            n == model_name@.len(),
            r@ == folder_name_chars(model_name@.subrange(0, i as int)),
        decreases n - i,
    {
        let c = model_name.get_char(i);
        if c == ':' || c == '/' {
            r.append("--");
            proof {
                reveal_strlit("--");
            }
        } else {
            r.append(model_name.substring_char(i, i + 1));
        }
        proof {
            let pre = model_name@.subrange(0, i as int);
            let next = model_name@.subrange(0, i + 1);
            assert(next.drop_last() =~= pre);
            assert(next.last() == model_name@[i as int]);
            if c == ':' || c == '/' {
                assert("--"@ =~= seq!['-', '-']);
                assert(r@ =~= folder_name_chars(next));
            } else {
                assert(model_name@.subrange(i as int, i + 1) =~= seq![model_name@[i as int]]);
                assert(r@ =~= folder_name_chars(next));
            }
        }
        i = i + 1;
    }
    proof {
        assert(model_name@.subrange(0, n as int) =~= model_name@);
    }
    r
}

/// Joins the destination directory and a file name with a single `'/'`.
pub fn join_output_path(dir: &str, name: &str) -> (r: String)
    ensures
        r@ == dir@ + "/"@ + name@,
{
    let mut r = dir.to_owned();
    r.append("/");
    r.append(name);
    proof {
        assert(r@ =~= dir@ + "/"@ + name@);
    }
    r
}

/// Position `i` holds the `':'` separator of a model reference.
pub open spec fn sep_at(s: Seq<char>, i: int) -> bool {
    0 <= i < s.len() && s[i] == ':'
}

/// A well-formed `name:tag` reference: exactly one `':'`, with a non-empty
/// name before it and a non-empty tag after it.
pub open spec fn valid_model_ref(s: Seq<char>) -> bool {
    exists|i: int|
        {
            &&& #[trigger] sep_at(s, i)
            &&& 0 < i < s.len() - 1
            &&& forall|j: int| #[trigger] sep_at(s, j) ==> j == i
        }
}

/// The position of the single separator of a well-formed model reference.
pub open spec fn sep_index(s: Seq<char>) -> int {
    choose|i: int|
        {
            &&& #[trigger] sep_at(s, i)
            &&& 0 < i < s.len() - 1
            &&& forall|j: int| #[trigger] sep_at(s, j) ==> j == i
        }
}

/// The model name part of a well-formed `name:tag` reference.
pub open spec fn name_of(s: Seq<char>) -> Seq<char>
    recommends
        valid_model_ref(s),
{
    s.subrange(0, sep_index(s))
}

/// The tag part of a well-formed `name:tag` reference.
pub open spec fn tag_of(s: Seq<char>) -> Seq<char>
    recommends
        valid_model_ref(s),
{
    s.subrange(sep_index(s) + 1, s.len() as int)
}

/// Splits a `name:tag` model reference at its single `':'`; any other count
/// of separators, an empty name or an empty tag is rejected.
pub fn split_model_ref(model_ref: &str) -> (r: Result<(String, String), DownloadError>)
    ensures
        r is Ok <==> valid_model_ref(model_ref@),
        r matches Ok(parts) ==> parts.0@ == name_of(model_ref@) && parts.1@ == tag_of(
            model_ref@,
        ) && parts.0@.len() > 0 && parts.1@.len() > 0,
        r is Err ==> r matches Err(DownloadError::ParseError(_)),
{
    let n = model_ref.unicode_len();
    let mut sep: Option<usize> = None;
    let mut i: usize = 0;
    while i < n
        invariant
            i <= n,
            n == model_ref@.len(),
            sep matches Some(k) ==> k < i && sep_at(model_ref@, k as int),
            forall|j: int|
                0 <= j < i && (sep matches Some(k) ==> j != k) ==> !sep_at(model_ref@, j),
        decreases n - i,
    {
        if model_ref.get_char(i) == ':' {
            match sep {
                None => {
                    sep = Some(i);
                },
                Some(first) => {
                    proof {
                        assert(sep_at(model_ref@, first as int));
                        assert(sep_at(model_ref@, i as int));
                        assert(!valid_model_ref(model_ref@));
                    }
                    return Err(
                        DownloadError::ParseError(
                            String::from_str("model reference holds more than one ':'"),
                        ),
                    );
                },
            }
        }
        i = i + 1;
    }
    match sep {
        None => {
            proof {
                assert(forall|j: int| !sep_at(model_ref@, j));
            }
            Err(
                DownloadError::ParseError(
                    String::from_str("model reference holds no ':' separator"),
                ),
            )
        },
        Some(k) => {
            if k == 0 || k + 1 >= n {
                proof {
                    assert(sep_at(model_ref@, k as int));
                }
                Err(
                    DownloadError::ParseError(
                        String::from_str("model reference needs a non-empty name and tag"),
                    ),
                )
            } else {
                let name = model_ref.substring_char(0, k).to_owned();
                let tag = model_ref.substring_char(k + 1, n).to_owned();
                proof {
                    let s = model_ref@;
                    assert(sep_at(s, k as int));
                    assert(forall|j: int| #[trigger] sep_at(s, j) ==> j == k);
                    assert(valid_model_ref(s));
                    let i0 = sep_index(s);
                    assert(sep_at(s, i0) && i0 == k);
                }
                Ok((name, tag))
            }
        },
    }
}

} // verus!
