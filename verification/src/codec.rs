use vstd::prelude::*;
use vstd::string::*;
use crate::digits::{
    all_digits, dec_digits, digit_run_end, digit_val, digits_val, is_digit,
    lemma_dec_digits_no_leading_zero, lemma_dec_digits_shape, lemma_dec_digits_val,
    lemma_digit_run_bounds, lemma_digit_run_exact, lemma_digit_run_lower,
    lemma_digits_val_monotone, lemma_digits_val_step, u64_to_decimal,
};
use crate::error::DownloadError;
use crate::manifest::{Layer, LayerV, ManifestV, OllamaResponse};

verus! {

// The manifest grammar accepted here is the JSON shape the registry
// documents: an object holding `schemaVersion` (an unsigned 32-bit number)
// and `layers` (an array of objects holding `mediaType`, `size` and
// `digest`), with members in any order, unknown members skipped, string
// escapes processed, and whitespace free between tokens. Containers nested
// inside unknown members deeper than `UNKNOWN_VALUE_DEPTH` are rejected,
// as a parser recursion limit.

/// How deep containers inside unknown, skipped members may nest.
pub const UNKNOWN_VALUE_DEPTH: u64 = 124;

/// Relies on std's `String::push`: appends the given character to the end
/// of the string.
pub assume_specification[ String::push ](s: &mut String, ch: char)
    ensures
        final(s)@ == old(s)@.push(ch),
;

/// Relies on std's `char::from_u32`: `Some` exactly for the valid scalar
/// values (not a surrogate, at most 0x10FFFF), carrying that code point.
pub assume_specification[ char::from_u32 ](i: u32) -> (r: Option<char>)
    ensures
        (i < 0xD800 || (0xE000 <= i && i <= 0x10FFFF)) ==> r == Some(i as char),
        !(i < 0xD800 || (0xE000 <= i && i <= 0x10FFFF)) ==> r is None,
;

/// JSON whitespace.
pub open spec fn is_ws(c: char) -> bool {
    c == ' ' || c == '\n' || c == '\t' || c == '\r'
}

/// First position at or after `i` that holds no whitespace.
pub open spec fn spec_skip_ws(s: Seq<char>, i: int) -> int
    recommends
        0 <= i <= s.len(),
    decreases s.len() - i,
        when 0 <= i <= s.len()
{
    if i < s.len() && is_ws(s[i]) {
        spec_skip_ws(s, i + 1)
    } else {
        i
    }
}

/// Skipping whitespace stays within the string and never moves backwards.
pub proof fn lemma_skip_ws_bounds(s: Seq<char>, i: int)
    requires
        0 <= i <= s.len(),
    ensures
        i <= spec_skip_ws(s, i) <= s.len(),
    decreases s.len() - i,
{
    if i < s.len() && is_ws(s[i]) {
        lemma_skip_ws_bounds(s, i + 1);
    }
}

/// Skipping whitespace where none stands does nothing.
proof fn lemma_skip_ws_noop(s: Seq<char>, i: int)
    requires
        0 <= i <= s.len(),
        i == s.len() || !is_ws(s[i]),
    ensures
        spec_skip_ws(s, i) == i,
{
}

/// A character that may stand unescaped inside a JSON string.
pub open spec fn str_char_ok(c: char) -> bool {
    c != '"' && c != '\\' && c as int >= 32
}

/// Every character of `s` may stand unescaped in a JSON string.
pub open spec fn string_wf(s: Seq<char>) -> bool {
    forall|k: int| 0 <= k < s.len() ==> str_char_ok(#[trigger] s[k])
}

/// Is `c` one of the hexadecimal digit characters?
pub open spec fn is_hex(c: char) -> bool {
    ('0' <= c && c <= '9') || ('a' <= c && c <= 'f') || ('A' <= c && c <= 'F')
}

/// The numeric value of the hexadecimal digit `c`.
pub open spec fn hex_val(c: char) -> int
    recommends
        is_hex(c),
{
    if '0' <= c && c <= '9' {
        c as int - '0' as int
    } else if 'a' <= c && c <= 'f' {
        c as int - 'a' as int + 10
    } else {
        c as int - 'A' as int + 10
    }
}

/// The value of the four hexadecimal digits at `i`, when they stand there.
pub open spec fn spec_hex4(s: Seq<char>, i: int) -> Option<u32> {
    if 0 <= i && i + 4 <= s.len() && is_hex(s[i]) && is_hex(s[i + 1]) && is_hex(s[i + 2])
        && is_hex(s[i + 3]) {
        Some(
            ((hex_val(s[i]) * 4096 + hex_val(s[i + 1]) * 256 + hex_val(s[i + 2]) * 16 + hex_val(
                s[i + 3],
            )) as u32),
        )
    } else {
        None
    }
}

/// Parses the escape that follows a backslash at `i - 1`: the eight simple
/// escapes, `\uXXXX` for a scalar value, or a surrogate pair of two
/// `\uXXXX` escapes for a supplementary character.
pub open spec fn spec_escape(s: Seq<char>, i: int) -> Option<(char, int)>
    recommends
        0 <= i <= s.len(),
{
    if i < s.len() {
        let c = s[i];
        if c == '"' {
            Some(('"', i + 1))
        } else if c == '\\' {
            Some(('\\', i + 1))
        } else if c == '/' {
            Some(('/', i + 1))
        } else if c == 'b' {
            Some(('\u{0008}', i + 1))
        } else if c == 'f' {
            Some(('\u{000C}', i + 1))
        } else if c == 'n' {
            Some(('\n', i + 1))
        } else if c == 'r' {
            Some(('\r', i + 1))
        } else if c == 't' {
            Some(('\t', i + 1))
        } else if c == 'u' {
            match spec_hex4(s, i + 1) {
                None => None,
                Some(v) => if v < 0xD800 || v > 0xDFFF {
                    Some((v as char, i + 5))
                } else if v <= 0xDBFF {
                    if i + 7 <= s.len() && s[i + 5] == '\\' && s[i + 6] == 'u' {
                        match spec_hex4(s, i + 7) {
                            None => None,
                            Some(w) => if 0xDC00 <= w && w <= 0xDFFF {
                                Some(
                                    (
                                        ((0x10000 + (v - 0xD800) * 0x400 + (w
                                            - 0xDC00)) as u32) as char,
                                        i + 11,
                                    ),
                                )
                            } else {
                                None
                            },
                        }
                    } else {
                        None
                    }
                } else {
                    None
                },
            }
        } else {
            None
        }
    } else {
        None
    }
}

/// A parsed escape consumes at least one character and stays within the
/// string.
pub proof fn lemma_escape_bounds(s: Seq<char>, i: int)
    requires
        0 <= i <= s.len(),
    ensures
        spec_escape(s, i) matches Some(r) ==> i < r.1 <= s.len(),
{
}

/// Parses the rest of a quoted string from `i` (just after the opening
/// quote or the last consumed character) to its closing quote, processing
/// escapes; the returned position is just past the closing quote.
pub open spec fn spec_string_body(s: Seq<char>, i: int) -> Option<(Seq<char>, int)>
    recommends
        0 <= i <= s.len(),
    decreases s.len() - i,
        when 0 <= i <= s.len()
{
    if i < s.len() {
        let c = s[i];
        if c == '"' {
            Some((Seq::empty(), i + 1))
        } else if c == '\\' {
            match spec_escape(s, i + 1) {
                None => None,
                Some((e, j)) => {
                    proof {
                        lemma_escape_bounds(s, i + 1);
                    }
                    match spec_string_body(s, j) {
                        None => None,
                        Some((rest, k)) => Some((seq![e] + rest, k)),
                    }
                },
            }
        } else if c as int >= 32 {
            match spec_string_body(s, i + 1) {
                None => None,
                Some((rest, k)) => Some((seq![c] + rest, k)),
            }
        } else {
            None
        }
    } else {
        None
    }
}

/// Parses the quoted JSON string that starts at `i`.
pub open spec fn spec_parse_string(s: Seq<char>, i: int) -> Option<(Seq<char>, int)>
    recommends
        0 <= i <= s.len(),
{
    if i < s.len() && s[i] == '"' {
        spec_string_body(s, i + 1)
    } else {
        None
    }
}

/// Parses the unsigned decimal that starts at `i`: a maximal digit run,
/// rejected when empty, when it carries a leading zero, or when its value
/// does not fit in 64 bits.
pub open spec fn spec_parse_u64(s: Seq<char>, i: int) -> Option<(u64, int)>
    recommends
        0 <= i <= s.len(),
{
    let j = digit_run_end(s, i);
    if j == i {
        None
    } else if s[i] == '0' && j > i + 1 {
        None
    } else if digits_val(s.subrange(i, j)) > u64::MAX {
        None
    } else {
        Some((digits_val(s.subrange(i, j)) as u64, j))
    }
}

/// Skips the fraction part of a JSON number, when one stands at `i`.
pub open spec fn spec_skip_frac(s: Seq<char>, i: int) -> Option<int>
    recommends
        0 <= i <= s.len(),
{
    if i < s.len() && s[i] == '.' {
        let j = digit_run_end(s, i + 1);
        if j == i + 1 {
            None
        } else {
            Some(j)
        }
    } else {
        Some(i)
    }
}

/// Skips the exponent part of a JSON number, when one stands at `i`.
pub open spec fn spec_skip_exp(s: Seq<char>, i: int) -> Option<int>
    recommends
        0 <= i <= s.len(),
{
    if i < s.len() && (s[i] == 'e' || s[i] == 'E') {
        let a = if i + 1 < s.len() && (s[i + 1] == '+' || s[i + 1] == '-') {
            i + 2
        } else {
            i + 1
        };
        let j = digit_run_end(s, a);
        if j == a {
            None
        } else {
            Some(j)
        }
    } else {
        Some(i)
    }
}

/// Skips one JSON number starting at `i`: optional sign, integer part
/// without a leading zero, optional fraction and exponent.
pub open spec fn spec_skip_number(s: Seq<char>, i: int) -> Option<int>
    recommends
        0 <= i <= s.len(),
{
    let a = if i < s.len() && s[i] == '-' {
        i + 1
    } else {
        i
    };
    let b = digit_run_end(s, a);
    if b == a {
        None
    } else if s[a] == '0' && b > a + 1 {
        None
    } else {
        match spec_skip_frac(s, b) {
            None => None,
            Some(c) => spec_skip_exp(s, c),
        }
    }
}

/// Does the literal `lit` stand at position `i` of `s`?
pub open spec fn spec_expect(s: Seq<char>, i: int, lit: Seq<char>) -> Option<int> {
    if 0 <= i && i + lit.len() <= s.len() && s.subrange(i, i + lit.len()) == lit {
        Some(i + lit.len())
    } else {
        None
    }
}

/// Skips one JSON value of an unknown member starting at `i`: a string,
/// an object or array (while `depth` lasts), a literal, or a number. The
/// fuel only bounds the recursion; it never runs out before the input does.
pub open spec fn spec_skip_value(s: Seq<char>, i: int, depth: nat, fuel: nat) -> Option<int>
    recommends
        0 <= i <= s.len(),
    decreases fuel,
{
    if fuel == 0 {
        None
    } else if i < s.len() {
        let c = s[i];
        if c == '"' {
            match spec_string_body(s, i + 1) {
                None => None,
                Some((content, j)) => Some(j),
            }
        } else if c == '{' {
            if depth == 0 {
                None
            } else {
                spec_skip_members_start(s, i + 1, (depth - 1) as nat, (fuel - 1) as nat)
            }
        } else if c == '[' {
            if depth == 0 {
                None
            } else {
                spec_skip_elements_start(s, i + 1, (depth - 1) as nat, (fuel - 1) as nat)
            }
        } else if c == 't' {
            spec_expect(s, i, "true"@)
        } else if c == 'f' {
            spec_expect(s, i, "false"@)
        } else if c == 'n' {
            spec_expect(s, i, "null"@)
        } else {
            spec_skip_number(s, i)
        }
    } else {
        None
    }
}

/// Skips a skipped object from just after its `{`: the closing `}` or its
/// first member.
pub open spec fn spec_skip_members_start(s: Seq<char>, i: int, depth: nat, fuel: nat) -> Option<
    int,
>
    recommends
        0 <= i <= s.len(),
    decreases fuel,
{
    if fuel == 0 {
        None
    } else {
        let j = spec_skip_ws(s, i);
        if j < s.len() && s[j] == '}' {
            Some(j + 1)
        } else {
            spec_skip_member_then(s, j, depth, (fuel - 1) as nat)
        }
    }
}

/// Skips one member of a skipped object (name, colon, value) and then the
/// rest of the object.
pub open spec fn spec_skip_member_then(s: Seq<char>, i: int, depth: nat, fuel: nat) -> Option<int>
    recommends
        0 <= i <= s.len(),
    decreases fuel,
{
    if fuel == 0 {
        None
    } else if i < s.len() && s[i] == '"' {
        match spec_string_body(s, i + 1) {
            None => None,
            Some((name, a)) => {
                let b = spec_skip_ws(s, a);
                match spec_expect(s, b, ":"@) {
                    None => None,
                    Some(c0) => {
                        let d = spec_skip_ws(s, c0);
                        match spec_skip_value(s, d, depth, (fuel - 1) as nat) {
                            None => None,
                            Some(e) => {
                                let f = spec_skip_ws(s, e);
                                if f < s.len() && s[f] == '}' {
                                    Some(f + 1)
                                } else if f < s.len() && s[f] == ',' {
                                    spec_skip_member_then(
                                        s,
                                        spec_skip_ws(s, f + 1),
                                        depth,
                                        (fuel - 1) as nat,
                                    )
                                } else {
                                    None
                                }
                            },
                        }
                    },
                }
            },
        }
    } else {
        None
    }
}

/// Skips a skipped array from just after its `[`: the closing `]` or its
/// first element.
pub open spec fn spec_skip_elements_start(s: Seq<char>, i: int, depth: nat, fuel: nat) -> Option<
    int,
>
    recommends
        0 <= i <= s.len(),
    decreases fuel,
{
    if fuel == 0 {
        None
    } else {
        let j = spec_skip_ws(s, i);
        if j < s.len() && s[j] == ']' {
            Some(j + 1)
        } else {
            spec_skip_element_then(s, j, depth, (fuel - 1) as nat)
        }
    }
}

/// Skips one element of a skipped array and then the rest of the array.
pub open spec fn spec_skip_element_then(s: Seq<char>, i: int, depth: nat, fuel: nat) -> Option<int>
    recommends
        0 <= i <= s.len(),
    decreases fuel,
{
    if fuel == 0 {
        None
    } else {
        match spec_skip_value(s, i, depth, (fuel - 1) as nat) {
            None => None,
            Some(e) => {
                let f = spec_skip_ws(s, e);
                if f < s.len() && s[f] == ']' {
                    Some(f + 1)
                } else if f < s.len() && s[f] == ',' {
                    spec_skip_element_then(s, spec_skip_ws(s, f + 1), depth, (fuel - 1) as nat)
                } else {
                    None
                }
            },
        }
    }
}

/// Parses the members of a layer object from the position of a member
/// name, in any order: `mediaType`, `size` and `digest` are taken (each at
/// most once), anything else is skipped; all three must be present when
/// the object closes.
pub open spec fn spec_layer_members(
    s: Seq<char>,
    i: int,
    mt: Option<Seq<char>>,
    sz: Option<u64>,
    dg: Option<Seq<char>>,
    fuel: nat,
) -> Option<(LayerV, int)>
    recommends
        0 <= i <= s.len(),
    decreases fuel,
{
    if fuel == 0 {
        None
    } else if i < s.len() && s[i] == '"' {
        match spec_string_body(s, i + 1) {
            None => None,
            Some((name, a)) => {
                let b = spec_skip_ws(s, a);
                match spec_expect(s, b, ":"@) {
                    None => None,
                    Some(c0) => {
                        let d = spec_skip_ws(s, c0);
                        let step: Option<(Option<Seq<char>>, Option<u64>, Option<Seq<char>>, int)> =
                            if name == "mediaType"@ {
                            if mt is Some {
                                None
                            } else {
                                match spec_parse_string(s, d) {
                                    None => None,
                                    Some((v, e)) => Some((Some(v), sz, dg, e)),
                                }
                            }
                        } else if name == "size"@ {
                            if sz is Some {
                                None
                            } else {
                                match spec_parse_u64(s, d) {
                                    None => None,
                                    Some((v, e)) => Some((mt, Some(v), dg, e)),
                                }
                            }
                        } else if name == "digest"@ {
                            if dg is Some {
                                None
                            } else {
                                match spec_parse_string(s, d) {
                                    None => None,
                                    Some((v, e)) => Some((mt, sz, Some(v), e)),
                                }
                            }
                        } else {
                            match spec_skip_value(
                                s,
                                d,
                                UNKNOWN_VALUE_DEPTH as nat,
                                (fuel - 1) as nat,
                            ) {
                                None => None,
                                Some(e) => Some((mt, sz, dg, e)),
                            }
                        };
                        match step {
                            None => None,
                            Some((mt2, sz2, dg2, e)) => {
                                let f = spec_skip_ws(s, e);
                                if f < s.len() && s[f] == '}' {
                                    if mt2 is Some && sz2 is Some && dg2 is Some {
                                        Some(
                                            (
                                                LayerV {
                                                    media_type: mt2->Some_0,
                                                    size: sz2->Some_0,
                                                    digest: dg2->Some_0,
                                                },
                                                f + 1,
                                            ),
                                        )
                                    } else {
                                        None
                                    }
                                } else if f < s.len() && s[f] == ',' {
                                    spec_layer_members(
                                        s,
                                        spec_skip_ws(s, f + 1),
                                        mt2,
                                        sz2,
                                        dg2,
                                        (fuel - 1) as nat,
                                    )
                                } else {
                                    None
                                }
                            },
                        }
                    },
                }
            },
        }
    } else {
        None
    }
}

/// Parses one layer object starting at its `{`.
pub open spec fn spec_parse_layer(s: Seq<char>, i: int, fuel: nat) -> Option<(LayerV, int)>
    recommends
        0 <= i <= s.len(),
{
    match spec_expect(s, i, "{"@) {
        None => None,
        Some(a) => spec_layer_members(s, spec_skip_ws(s, a), None, None, None, fuel),
    }
}

/// Parses the elements of a non-empty layer array from the position of the
/// first layer.
pub open spec fn spec_layers_elems(s: Seq<char>, i: int, fuel: nat) -> Option<(Seq<LayerV>, int)>
    recommends
        0 <= i <= s.len(),
    decreases fuel,
{
    if fuel == 0 {
        None
    } else {
        match spec_parse_layer(s, i, (fuel - 1) as nat) {
            None => None,
            Some((l, e)) => {
                let f = spec_skip_ws(s, e);
                if f < s.len() && s[f] == ']' {
                    Some((seq![l], f + 1))
                } else if f < s.len() && s[f] == ',' {
                    match spec_layers_elems(s, spec_skip_ws(s, f + 1), (fuel - 1) as nat) {
                        None => None,
                        Some((rest, k)) => Some((seq![l] + rest, k)),
                    }
                } else {
                    None
                }
            },
        }
    }
}

/// Parses a layer array starting at its `[`.
pub open spec fn spec_parse_layers(s: Seq<char>, i: int, fuel: nat) -> Option<(Seq<LayerV>, int)>
    recommends
        0 <= i <= s.len(),
{
    match spec_expect(s, i, "["@) {
        None => None,
        Some(a) => {
            let j = spec_skip_ws(s, a);
            if j < s.len() && s[j] == ']' {
                Some((Seq::empty(), j + 1))
            } else {
                spec_layers_elems(s, j, fuel)
            }
        },
    }
}

/// Parses the members of the manifest object from the position of a member
/// name, in any order: `schemaVersion` (fitting 32 bits) and `layers` are
/// taken (each at most once), anything else is skipped; both must be
/// present when the object closes.
pub open spec fn spec_manifest_members(
    s: Seq<char>,
    i: int,
    ver: Option<u32>,
    lys: Option<Seq<LayerV>>,
    fuel: nat,
) -> Option<(ManifestV, int)>
    recommends
        0 <= i <= s.len(),
    decreases fuel,
{
    if fuel == 0 {
        None
    } else if i < s.len() && s[i] == '"' {
        match spec_string_body(s, i + 1) {
            None => None,
            Some((name, a)) => {
                let b = spec_skip_ws(s, a);
                match spec_expect(s, b, ":"@) {
                    None => None,
                    Some(c0) => {
                        let d = spec_skip_ws(s, c0);
                        let step: Option<(Option<u32>, Option<Seq<LayerV>>, int)> = if name
                            == "schemaVersion"@ {
                            if ver is Some {
                                None
                            } else {
                                match spec_parse_u64(s, d) {
                                    None => None,
                                    Some((v, e)) => if v > u32::MAX {
                                        None
                                    } else {
                                        Some((Some(v as u32), lys, e))
                                    },
                                }
                            }
                        } else if name == "layers"@ {
                            if lys is Some {
                                None
                            } else {
                                match spec_parse_layers(s, d, (fuel - 1) as nat) {
                                    None => None,
                                    Some((v, e)) => Some((ver, Some(v), e)),
                                }
                            }
                        } else {
                            match spec_skip_value(
                                s,
                                d,
                                UNKNOWN_VALUE_DEPTH as nat,
                                (fuel - 1) as nat,
                            ) {
                                None => None,
                                Some(e) => Some((ver, lys, e)),
                            }
                        };
                        match step {
                            None => None,
                            Some((ver2, lys2, e)) => {
                                let f = spec_skip_ws(s, e);
                                if f < s.len() && s[f] == '}' {
                                    if ver2 is Some && lys2 is Some {
                                        Some(
                                            (
                                                ManifestV {
                                                    schema_version: ver2->Some_0,
                                                    layers: lys2->Some_0,
                                                },
                                                f + 1,
                                            ),
                                        )
                                    } else {
                                        None
                                    }
                                } else if f < s.len() && s[f] == ',' {
                                    spec_manifest_members(
                                        s,
                                        spec_skip_ws(s, f + 1),
                                        ver2,
                                        lys2,
                                        (fuel - 1) as nat,
                                    )
                                } else {
                                    None
                                }
                            },
                        }
                    },
                }
            },
        }
    } else {
        None
    }
}

/// Parses a whole manifest body: whitespace, the manifest object, and
/// nothing but whitespace after it. The termination fuel is ample for any
/// body: every three recursion steps consume at least one character.
pub open spec fn spec_parse_manifest(s: Seq<char>) -> Option<ManifestV> {
    let fuel = (4 * s.len() + 8) as nat;
    match spec_expect(s, spec_skip_ws(s, 0), "{"@) {
        None => None,
        Some(a) => {
            match spec_manifest_members(s, spec_skip_ws(s, a), None, None, fuel) {
                None => None,
                Some((m, p)) => if spec_skip_ws(s, p) == s.len() {
                    Some(m)
                } else {
                    None
                },
            }
        },
    }
}

/// Advances past the whitespace that starts at `i`.
fn skip_ws_at(s: &str, i: usize, n: usize) -> (r: usize)
    requires
        n == s@.len(),
        i <= n,
    ensures
        r == spec_skip_ws(s@, i as int),
        i <= r <= n,
{
    let mut j = i;
    while j < n
        invariant
            i <= j <= n,
            n == s@.len(),
            spec_skip_ws(s@, i as int) == spec_skip_ws(s@, j as int),
        decreases n - j,
    {
        let c = s.get_char(j);
        if c == ' ' || c == '\n' || c == '\t' || c == '\r' {
            j = j + 1;
        } else {
            return j;
        }
    }
    j
}

/// Matches the literal `lit` at position `i`.
fn expect_lit(s: &str, i: usize, n: usize, lit: &str) -> (r: Option<usize>)
    requires
        n == s@.len(),
        i <= n,
    ensures
        r matches Some(p) ==> spec_expect(s@, i as int, lit@) == Some(p as int) && p <= n,
        r is None ==> spec_expect(s@, i as int, lit@) is None,
{
    let m = lit.unicode_len();
    if m > n - i {
        return None;
    }
    let mut k: usize = 0;
    while k < m
        invariant
            k <= m,
            i + m <= n,
            n == s@.len(),
            m == lit@.len(),
            forall|t: int| 0 <= t < k ==> s@[i + t] == lit@[t],
        decreases m - k,
    {
        if s.get_char(i + k) != lit.get_char(k) {
            proof {
                assert(s@.subrange(i as int, i + m as int)[k as int] == s@[i + k]);
            }
            return None;
        }
        k = k + 1;
    }
    proof {
        assert(s@.subrange(i as int, i + m as int) =~= lit@);
    }
    Some(i + m)
}

/// Compares two string slices by content.
fn str_eq(a: &str, b: &str) -> (r: bool)
    ensures
        r == (a@ == b@),
{
    let n = a.unicode_len();
    if n != b.unicode_len() {
        return false;
    }
    let mut k: usize = 0;
    while k < n
        invariant
            k <= n,
            n == a@.len(),
            n == b@.len(),
            forall|t: int| 0 <= t < k ==> a@[t] == b@[t],
        decreases n - k,
    {
        if a.get_char(k) != b.get_char(k) {
            return false;
        }
        k = k + 1;
    }
    proof {
        assert(a@ =~= b@);
    }
    true
}

/// The value of one hexadecimal digit character.
fn hex_val_at(c: char) -> (r: Option<u32>)
    ensures
        r matches Some(v) ==> is_hex(c) && v == hex_val(c),
        r is None ==> !is_hex(c),
{
    let u = c as u32;
    if u >= 48 && u <= 57 {
        Some(u - 48)
    } else if u >= 97 && u <= 102 {
        Some(u - 87)
    } else if u >= 65 && u <= 70 {
        Some(u - 55)
    } else {
        None
    }
}

/// Reads the four hexadecimal digits at `i`.
fn hex4_at(s: &str, i: usize, n: usize) -> (r: Option<u32>)
    requires
        n == s@.len(),
        i <= n,
    ensures
        r matches Some(v) ==> spec_hex4(s@, i as int) == Some(v),
        r is None ==> spec_hex4(s@, i as int) is None,
{
    if n - i < 4 {
        return None;
    }
    let v0 = match hex_val_at(s.get_char(i)) {
        Some(v) => v,
        None => {
            return None;
        },
    };
    let v1 = match hex_val_at(s.get_char(i + 1)) {
        Some(v) => v,
        None => {
            return None;
        },
    };
    let v2 = match hex_val_at(s.get_char(i + 2)) {
        Some(v) => v,
        None => {
            return None;
        },
    };
    let v3 = match hex_val_at(s.get_char(i + 3)) {
        Some(v) => v,
        None => {
            return None;
        },
    };
    Some(v0 * 4096 + v1 * 256 + v2 * 16 + v3)
}

/// Parses the escape that follows a backslash.
fn escape_at(s: &str, i: usize, n: usize) -> (r: Option<(char, usize)>)
    requires
        n == s@.len(),
        i <= n,
    ensures
        r matches Some(x) ==> spec_escape(s@, i as int) == Some((x.0, x.1 as int)) && i < x.1
            <= n,
        r is None ==> spec_escape(s@, i as int) is None,
{
    if i >= n {
        return None;
    }
    let c = s.get_char(i);
    if c == '"' {
        return Some(('"', i + 1));
    }
    if c == '\\' {
        return Some(('\\', i + 1));
    }
    if c == '/' {
        return Some(('/', i + 1));
    }
    if c == 'b' {
        return Some(('\u{0008}', i + 1));
    }
    if c == 'f' {
        return Some(('\u{000C}', i + 1));
    }
    if c == 'n' {
        return Some(('\n', i + 1));
    }
    if c == 'r' {
        return Some(('\r', i + 1));
    }
    if c == 't' {
        return Some(('\t', i + 1));
    }
    if c == 'u' {
        let v = match hex4_at(s, i + 1, n) {
            Some(v) => v,
            None => {
                return None;
            },
        };
        if v < 0xD800 || v > 0xDFFF {
            match char::from_u32(v) {
                Some(ch) => {
                    return Some((ch, i + 5));
                },
                None => {
                    return None;
                },
            }
        }
        if v <= 0xDBFF {
            if n - i >= 7 && s.get_char(i + 5) == '\\' && s.get_char(i + 6) == 'u' {
                let w = match hex4_at(s, i + 7, n) {
                    Some(w) => w,
                    None => {
                        return None;
                    },
                };
                if 0xDC00 <= w && w <= 0xDFFF {
                    let code: u32 = 0x10000 + (v - 0xD800) * 0x400 + (w - 0xDC00);
                    match char::from_u32(code) {
                        Some(ch) => {
                            return Some((ch, i + 11));
                        },
                        None => {
                            return None;
                        },
                    }
                }
                return None;
            }
            return None;
        }
        return None;
    }
    None
}

/// Parses the rest of a quoted string, building its unescaped content.
fn string_body_at(s: &str, i: usize, n: usize) -> (r: Option<(String, usize)>)
    requires
        n == s@.len(),
        i <= n,
    ensures
        r matches Some(x) ==> spec_string_body(s@, i as int) == Some((x.0@, x.1 as int)) && x.1
            <= n,
        r is None ==> spec_string_body(s@, i as int) is None,
{
    let mut acc = String::new();
    let mut j = i;
    loop
        invariant
            i <= j <= n,
            n == s@.len(),
            spec_string_body(s@, i as int) == (match spec_string_body(s@, j as int) {
                Some((rest, k)) => Some((acc@ + rest, k)),
                None => None::<(Seq<char>, int)>,
            }),
        decreases n - j,
    {
        if j >= n {
            return None;
        }
        let c = s.get_char(j);
        if c == '"' {
            proof {
                assert(acc@ + Seq::<char>::empty() =~= acc@);
            }
            return Some((acc, j + 1));
        }
        if c == '\\' {
            match escape_at(s, j + 1, n) {
                None => {
                    return None;
                },
                Some((e, j2)) => {
                    proof {
                        if spec_string_body(s@, j2 as int) is Some {
                            let rest = spec_string_body(s@, j2 as int)->Some_0.0;
                            assert((acc@ + seq![e]) + rest =~= acc@ + (seq![e] + rest));
                        }
                        assert(acc@.push(e) =~= acc@ + seq![e]);
                    }
                    acc.push(e);
                    j = j2;
                },
            }
        } else if (c as u32) >= 32 {
            proof {
                if spec_string_body(s@, j + 1) is Some {
                    let rest = spec_string_body(s@, j + 1)->Some_0.0;
                    assert((acc@ + seq![c]) + rest =~= acc@ + (seq![c] + rest));
                }
                assert(acc@.push(c) =~= acc@ + seq![c]);
            }
            acc.push(c);
            j = j + 1;
        } else {
            return None;
        }
    }
}

/// Parses the quoted JSON string that starts at `i`.
fn parse_string_at(s: &str, i: usize, n: usize) -> (r: Option<(String, usize)>)
    requires
        n == s@.len(),
        i <= n,
    ensures
        r matches Some(x) ==> spec_parse_string(s@, i as int) == Some((x.0@, x.1 as int)) && x.1
            <= n,
        r is None ==> spec_parse_string(s@, i as int) is None,
{
    if i >= n {
        return None;
    }
    if s.get_char(i) != '"' {
        return None;
    }
    string_body_at(s, i + 1, n)
}

/// Advances past the run of decimal digits that starts at `i`.
fn digit_run_at(s: &str, i: usize, n: usize) -> (r: usize)
    requires
        n == s@.len(),
        i <= n,
    ensures
        r == digit_run_end(s@, i as int),
        i <= r <= n,
{
    let mut j = i;
    while j < n
        invariant
            i <= j <= n,
            n == s@.len(),
            digit_run_end(s@, i as int) == digit_run_end(s@, j as int),
        decreases n - j,
    {
        let u = s.get_char(j) as u32;
        if u >= 48 && u <= 57 {
            proof {
                assert(is_digit(s@[j as int]));
            }
            j = j + 1;
        } else {
            proof {
                assert(!is_digit(s@[j as int]));
            }
            return j;
        }
    }
    j
}

/// Parses the unsigned decimal that starts at `i`.
fn parse_u64_at(s: &str, i: usize, n: usize) -> (r: Option<(u64, usize)>)
    requires
        n == s@.len(),
        i <= n,
    ensures
        r matches Some(v) ==> spec_parse_u64(s@, i as int) == Some((v.0, v.1 as int)) && v.1
            <= n,
        r is None ==> spec_parse_u64(s@, i as int) is None,
{
    let mut j = i;
    let mut acc: u64 = 0;
    while j < n
        invariant
            i <= j <= n,
            n == s@.len(),
            forall|t: int| i <= t < j ==> is_digit(#[trigger] s@[t]),
            acc == digits_val(s@.subrange(i as int, j as int)),
        decreases n - j,
    {
        let c = s.get_char(j);
        let code = c as u32;
        if code < 48 || code > 57 {
            proof {
                assert(!is_digit(c));
                lemma_digit_run_exact(s@, i as int, j as int);
            }
            if j == i {
                return None;
            }
            if j > i + 1 && s.get_char(i) == '0' {
                return None;
            }
            return Some((acc, j));
        }
        let d: u64 = (code - 48) as u64;
        proof {
            assert(is_digit(c));
            assert(digit_val(c) == d);
        }
        if acc > (u64::MAX - d) / 10 {
            proof {
                let q = (u64::MAX - d) as int / 10;
                vstd::arithmetic::div_mod::lemma_fundamental_div_mod((u64::MAX - d) as int, 10);
                assert(acc * 10 >= (q + 1) * 10) by (nonlinear_arith)
                    requires
                        acc >= q + 1,
                ;
                lemma_digits_val_step(s@, i as int, j as int);
                assert(digits_val(s@.subrange(i as int, j + 1)) > u64::MAX);
                lemma_digit_run_lower(s@, i as int, j + 1);
                lemma_digit_run_bounds(s@, i as int);
                let e = digit_run_end(s@, i as int);
                lemma_digits_val_monotone(s@, i as int, j + 1, e);
            }
            return None;
        }
        proof {
            let q = (u64::MAX - d) as int / 10;
            vstd::arithmetic::div_mod::lemma_fundamental_div_mod((u64::MAX - d) as int, 10);
            assert(acc * 10 <= q * 10) by (nonlinear_arith)
                requires
                    acc <= q,
            ;
            lemma_digits_val_step(s@, i as int, j as int);
        }
        acc = acc * 10 + d;
        j = j + 1;
    }
    proof {
        lemma_digit_run_exact(s@, i as int, n as int);
    }
    if j == i {
        return None;
    }
    if j > i + 1 && s.get_char(i) == '0' {
        return None;
    }
    Some((acc, j))
}

/// Skips one JSON number starting at `i`.
fn skip_number_at(s: &str, i: usize, n: usize) -> (r: Option<usize>)
    requires
        n == s@.len(),
        i <= n,
    ensures
        r matches Some(p) ==> spec_skip_number(s@, i as int) == Some(p as int) && p <= n,
        r is None ==> spec_skip_number(s@, i as int) is None,
{
    let a = if i < n && s.get_char(i) == '-' {
        i + 1
    } else {
        i
    };
    let b = digit_run_at(s, a, n);
    if b == a {
        return None;
    }
    if s.get_char(a) == '0' && b > a + 1 {
        return None;
    }
    let c1 = if b < n && s.get_char(b) == '.' {
        let c2 = digit_run_at(s, b + 1, n);
        if c2 == b + 1 {
            return None;
        }
        c2
    } else {
        b
    };
    if c1 < n && (s.get_char(c1) == 'e' || s.get_char(c1) == 'E') {
        let a2 = if c1 + 1 < n && (s.get_char(c1 + 1) == '+' || s.get_char(c1 + 1) == '-') {
            c1 + 2
        } else {
            c1 + 1
        };
        let d = digit_run_at(s, a2, n);
        if d == a2 {
            return None;
        }
        return Some(d);
    }
    Some(c1)
}

/// Skips one JSON value of an unknown member.
fn skip_value_at(s: &str, i: usize, n: usize, depth: u64, fuel: u128) -> (r: Option<usize>)
    requires
        n == s@.len(),
        i <= n,
    ensures
        r matches Some(p) ==> spec_skip_value(s@, i as int, depth as nat, fuel as nat) == Some(
            p as int,
        ) && p <= n,
        r is None ==> spec_skip_value(s@, i as int, depth as nat, fuel as nat) is None,
    decreases fuel,
{
    if fuel == 0 {
        return None;
    }
    if i >= n {
        return None;
    }
    let c = s.get_char(i);
    if c == '"' {
        match string_body_at(s, i + 1, n) {
            Some((_content, j)) => Some(j),
            None => None,
        }
    } else if c == '{' {
        if depth == 0 {
            None
        } else {
            skip_members_start_at(s, i + 1, n, depth - 1, fuel - 1)
        }
    } else if c == '[' {
        if depth == 0 {
            None
        } else {
            skip_elements_start_at(s, i + 1, n, depth - 1, fuel - 1)
        }
    } else if c == 't' {
        expect_lit(s, i, n, "true")
    } else if c == 'f' {
        expect_lit(s, i, n, "false")
    } else if c == 'n' {
        expect_lit(s, i, n, "null")
    } else {
        skip_number_at(s, i, n)
    }
}

/// Skips a skipped object from just after its `{`.
fn skip_members_start_at(s: &str, i: usize, n: usize, depth: u64, fuel: u128) -> (r: Option<usize>)
    requires
        n == s@.len(),
        i <= n,
    ensures
        r matches Some(p) ==> spec_skip_members_start(s@, i as int, depth as nat, fuel as nat)
            == Some(p as int) && p <= n,
        r is None ==> spec_skip_members_start(s@, i as int, depth as nat, fuel as nat) is None,
    decreases fuel,
{
    if fuel == 0 {
        return None;
    }
    let j = skip_ws_at(s, i, n);
    if j < n && s.get_char(j) == '}' {
        return Some(j + 1);
    }
    skip_member_then_at(s, j, n, depth, fuel - 1)
}

/// Skips one member of a skipped object and then the rest of the object.
fn skip_member_then_at(s: &str, i: usize, n: usize, depth: u64, fuel: u128) -> (r: Option<usize>)
    requires
        n == s@.len(),
        i <= n,
    ensures
        r matches Some(p) ==> spec_skip_member_then(s@, i as int, depth as nat, fuel as nat)
            == Some(p as int) && p <= n,
        r is None ==> spec_skip_member_then(s@, i as int, depth as nat, fuel as nat) is None,
    decreases fuel,
{
    if fuel == 0 {
        return None;
    }
    if i >= n {
        return None;
    }
    if s.get_char(i) != '"' {
        return None;
    }
    let a = match string_body_at(s, i + 1, n) {
        Some((_name, a)) => a,
        None => {
            return None;
        },
    };
    let b = skip_ws_at(s, a, n);
    let c0 = match expect_lit(s, b, n, ":") {
        Some(p) => p,
        None => {
            return None;
        },
    };
    let d = skip_ws_at(s, c0, n);
    let e = match skip_value_at(s, d, n, depth, fuel - 1) {
        Some(p) => p,
        None => {
            return None;
        },
    };
    let f = skip_ws_at(s, e, n);
    if f < n && s.get_char(f) == '}' {
        return Some(f + 1);
    }
    if f < n && s.get_char(f) == ',' {
        let g = skip_ws_at(s, f + 1, n);
        return skip_member_then_at(s, g, n, depth, fuel - 1);
    }
    None
}

/// Skips a skipped array from just after its `[`.
fn skip_elements_start_at(s: &str, i: usize, n: usize, depth: u64, fuel: u128) -> (r: Option<
    usize,
>)
    requires
        n == s@.len(),
        i <= n,
    ensures
        r matches Some(p) ==> spec_skip_elements_start(s@, i as int, depth as nat, fuel as nat)
            == Some(p as int) && p <= n,
        r is None ==> spec_skip_elements_start(s@, i as int, depth as nat, fuel as nat) is None,
    decreases fuel,
{
    if fuel == 0 {
        return None;
    }
    let j = skip_ws_at(s, i, n);
    if j < n && s.get_char(j) == ']' {
        return Some(j + 1);
    }
    skip_element_then_at(s, j, n, depth, fuel - 1)
}

/// Skips one element of a skipped array and then the rest of the array.
fn skip_element_then_at(s: &str, i: usize, n: usize, depth: u64, fuel: u128) -> (r: Option<usize>)
    requires
        n == s@.len(),
        i <= n,
    ensures
        r matches Some(p) ==> spec_skip_element_then(s@, i as int, depth as nat, fuel as nat)
            == Some(p as int) && p <= n,
        r is None ==> spec_skip_element_then(s@, i as int, depth as nat, fuel as nat) is None,
    decreases fuel,
{
    if fuel == 0 {
        return None;
    }
    let e = match skip_value_at(s, i, n, depth, fuel - 1) {
        Some(p) => p,
        None => {
            return None;
        },
    };
    let f = skip_ws_at(s, e, n);
    if f < n && s.get_char(f) == ']' {
        return Some(f + 1);
    }
    if f < n && s.get_char(f) == ',' {
        let g = skip_ws_at(s, f + 1, n);
        return skip_element_then_at(s, g, n, depth, fuel - 1);
    }
    None
}

/// The content view of an optional owned string.
pub open spec fn view_opt_str(o: Option<String>) -> Option<Seq<char>> {
    match o {
        Some(x) => Some(x@),
        None => None,
    }
}

/// The view of an optional layer list.
pub open spec fn view_opt_layers(o: Option<Vec<Layer>>) -> Option<Seq<LayerV>> {
    match o {
        Some(v) => Some(v@.map_values(|l: Layer| l@)),
        None => None,
    }
}

/// Parses the members of a layer object.
fn layer_members_at(
    s: &str,
    i: usize,
    n: usize,
    mt: Option<String>,
    sz: Option<u64>,
    dg: Option<String>,
    fuel: u128,
) -> (r: Option<(Layer, usize)>)
    requires
        n == s@.len(),
        i <= n,
    ensures
        r matches Some(x) ==> spec_layer_members(
            s@,
            i as int,
            view_opt_str(mt),
            sz,
            view_opt_str(dg),
            fuel as nat,
        ) == Some((x.0@, x.1 as int)) && x.1 <= n,
        r is None ==> spec_layer_members(
            s@,
            i as int,
            view_opt_str(mt),
            sz,
            view_opt_str(dg),
            fuel as nat,
        ) is None,
    decreases fuel,
{
    if fuel == 0 {
        return None;
    }
    if i >= n {
        return None;
    }
    if s.get_char(i) != '"' {
        return None;
    }
    let (name, a) = match string_body_at(s, i + 1, n) {
        Some(x) => x,
        None => {
            return None;
        },
    };
    let b = skip_ws_at(s, a, n);
    let c0 = match expect_lit(s, b, n, ":") {
        Some(p) => p,
        None => {
            return None;
        },
    };
    let d = skip_ws_at(s, c0, n);
    let mut mt2 = mt;
    let mut sz2 = sz;
    let mut dg2 = dg;
    let mut e: usize = 0;
    if str_eq(name.as_str(), "mediaType") {
        if mt2.is_some() {
            return None;
        }
        match parse_string_at(s, d, n) {
            Some((v, p)) => {
                mt2 = Some(v);
                e = p;
            },
            None => {
                return None;
            },
        }
    } else if str_eq(name.as_str(), "size") {
        if sz2.is_some() {
            return None;
        }
        match parse_u64_at(s, d, n) {
            Some((v, p)) => {
                sz2 = Some(v);
                e = p;
            },
            None => {
                return None;
            },
        }
    } else if str_eq(name.as_str(), "digest") {
        if dg2.is_some() {
            return None;
        }
        match parse_string_at(s, d, n) {
            Some((v, p)) => {
                dg2 = Some(v);
                e = p;
            },
            None => {
                return None;
            },
        }
    } else {
        match skip_value_at(s, d, n, UNKNOWN_VALUE_DEPTH, fuel - 1) {
            Some(p) => {
                e = p;
            },
            None => {
                return None;
            },
        }
    }
    let f = skip_ws_at(s, e, n);
    if f < n && s.get_char(f) == '}' {
        if mt2.is_some() && sz2.is_some() && dg2.is_some() {
            let layer = Layer {
                media_type: mt2.unwrap(),
                size: sz2.unwrap(),
                digest: dg2.unwrap(),
            };
            return Some((layer, f + 1));
        }
        return None;
    }
    if f < n && s.get_char(f) == ',' {
        let g = skip_ws_at(s, f + 1, n);
        return layer_members_at(s, g, n, mt2, sz2, dg2, fuel - 1);
    }
    None
}

/// Parses one layer object starting at its `{`.
fn parse_layer_at(s: &str, i: usize, n: usize, fuel: u128) -> (r: Option<(Layer, usize)>)
    requires
        n == s@.len(),
        i <= n,
    ensures
        r matches Some(x) ==> spec_parse_layer(s@, i as int, fuel as nat) == Some(
            (x.0@, x.1 as int),
        ) && x.1 <= n,
        r is None ==> spec_parse_layer(s@, i as int, fuel as nat) is None,
{
    let a = match expect_lit(s, i, n, "{") {
        Some(p) => p,
        None => {
            return None;
        },
    };
    let j = skip_ws_at(s, a, n);
    layer_members_at(s, j, n, None, None, None, fuel)
}

/// Parses the elements of a non-empty layer array.
fn layers_elems_at(s: &str, i: usize, n: usize, fuel: u128) -> (r: Option<(Vec<Layer>, usize)>)
    requires
        n == s@.len(),
        i <= n,
    ensures
        r matches Some(x) ==> spec_layers_elems(s@, i as int, fuel as nat) == Some(
            (x.0@.map_values(|l: Layer| l@), x.1 as int),
        ) && x.1 <= n,
        r is None ==> spec_layers_elems(s@, i as int, fuel as nat) is None,
    decreases fuel,
{
    if fuel == 0 {
        return None;
    }
    let (l, e) = match parse_layer_at(s, i, n, fuel - 1) {
        Some(x) => x,
        None => {
            return None;
        },
    };
    let f = skip_ws_at(s, e, n);
    if f < n && s.get_char(f) == ']' {
        let mut one: Vec<Layer> = Vec::new();
        one.push(l);
        proof {
            assert(one@.map_values(|l0: Layer| l0@) =~= seq![l@]);
        }
        return Some((one, f + 1));
    }
    if f < n && s.get_char(f) == ',' {
        let g = skip_ws_at(s, f + 1, n);
        match layers_elems_at(s, g, n, fuel - 1) {
            Some((mut rest, k)) => {
                rest.insert(0, l);
                proof {
                    let ghost spec_rest = spec_layers_elems(s@, g as int, (fuel - 1) as nat)
                        ->Some_0.0;
                    assert(rest@.map_values(|l0: Layer| l0@) =~= seq![l@] + spec_rest);
                }
                return Some((rest, k));
            },
            None => {
                return None;
            },
        }
    }
    None
}

/// Parses a layer array starting at its `[`.
fn parse_layers_at(s: &str, i: usize, n: usize, fuel: u128) -> (r: Option<(Vec<Layer>, usize)>)
    requires
        n == s@.len(),
        i <= n,
    ensures
        r matches Some(x) ==> spec_parse_layers(s@, i as int, fuel as nat) == Some(
            (x.0@.map_values(|l: Layer| l@), x.1 as int),
        ) && x.1 <= n,
        r is None ==> spec_parse_layers(s@, i as int, fuel as nat) is None,
{
    let a = match expect_lit(s, i, n, "[") {
        Some(p) => p,
        None => {
            return None;
        },
    };
    let j = skip_ws_at(s, a, n);
    if j < n && s.get_char(j) == ']' {
        let empty: Vec<Layer> = Vec::new();
        proof {
            assert(empty@.map_values(|l: Layer| l@) =~= Seq::<LayerV>::empty());
        }
        return Some((empty, j + 1));
    }
    layers_elems_at(s, j, n, fuel)
}

/// Parses the members of the manifest object.
fn manifest_members_at(
    s: &str,
    i: usize,
    n: usize,
    ver: Option<u32>,
    lys: Option<Vec<Layer>>,
    fuel: u128,
) -> (r: Option<(OllamaResponse, usize)>)
    requires
        n == s@.len(),
        i <= n,
    ensures
        r matches Some(x) ==> spec_manifest_members(
            s@,
            i as int,
            ver,
            view_opt_layers(lys),
            fuel as nat,
        ) == Some((x.0@, x.1 as int)) && x.1 <= n,
        r is None ==> spec_manifest_members(
            s@,
            i as int,
            ver,
            view_opt_layers(lys),
            fuel as nat,
        ) is None,
    decreases fuel,
{
    if fuel == 0 {
        return None;
    }
    if i >= n {
        return None;
    }
    if s.get_char(i) != '"' {
        return None;
    }
    let (name, a) = match string_body_at(s, i + 1, n) {
        Some(x) => x,
        None => {
            return None;
        },
    };
    let b = skip_ws_at(s, a, n);
    let c0 = match expect_lit(s, b, n, ":") {
        Some(p) => p,
        None => {
            return None;
        },
    };
    let d = skip_ws_at(s, c0, n);
    let mut ver2 = ver;
    let mut lys2 = lys;
    let mut e: usize = 0;
    if str_eq(name.as_str(), "schemaVersion") {
        if ver2.is_some() {
            return None;
        }
        match parse_u64_at(s, d, n) {
            Some((v, p)) => {
                if v > 0xFFFF_FFFFu64 {
                    return None;
                }
                ver2 = Some(v as u32);
                e = p;
            },
            None => {
                return None;
            },
        }
    } else if str_eq(name.as_str(), "layers") {
        if lys2.is_some() {
            return None;
        }
        match parse_layers_at(s, d, n, fuel - 1) {
            Some((v, p)) => {
                lys2 = Some(v);
                e = p;
            },
            None => {
                return None;
            },
        }
    } else {
        match skip_value_at(s, d, n, UNKNOWN_VALUE_DEPTH, fuel - 1) {
            Some(p) => {
                e = p;
            },
            None => {
                return None;
            },
        }
    }
    let f = skip_ws_at(s, e, n);
    if f < n && s.get_char(f) == '}' {
        if ver2.is_some() && lys2.is_some() {
            let resp = OllamaResponse { schema_version: ver2.unwrap(), layers: lys2.unwrap() };
            return Some((resp, f + 1));
        }
        return None;
    }
    if f < n && s.get_char(f) == ',' {
        let g = skip_ws_at(s, f + 1, n);
        return manifest_members_at(s, g, n, ver2, lys2, fuel - 1);
    }
    None
}

/// Parses a manifest body into its schema version and layers; a body that
/// is not JSON of the manifest schema is rejected as a `ParseError`.
pub fn parse_manifest(body: &str) -> (r: Result<OllamaResponse, DownloadError>)
    ensures
        r is Ok <==> spec_parse_manifest(body@) is Some,
        r matches Ok(resp) ==> resp@ == spec_parse_manifest(body@)->Some_0,
        r is Err ==> r matches Err(DownloadError::ParseError(_)),
{
    let n = body.unicode_len();
    let fuel: u128 = 4 * (n as u128) + 8;
    let err_msg = "manifest body does not match the expected schema";
    let a = match expect_lit(body, skip_ws_at(body, 0, n), n, "{") {
        Some(p) => p,
        None => {
            return Err(DownloadError::ParseError(String::from_str(err_msg)));
        },
    };
    let j = skip_ws_at(body, a, n);
    match manifest_members_at(body, j, n, None, None, fuel) {
        Some((resp, p)) => {
            if skip_ws_at(body, p, n) != n {
                return Err(DownloadError::ParseError(String::from_str(err_msg)));
            }
            Ok(resp)
        },
        None => Err(DownloadError::ParseError(String::from_str(err_msg))),
    }
}

/// Resolves one manifest response: a non-success status is a
/// `RequestError` naming the status code, a success status hands the body
/// to the manifest parser.
pub fn manifest_from_response(status: u16, body: &str) -> (r: Result<
    OllamaResponse,
    DownloadError,
>)
    ensures
        status != 200 ==> (r matches Err(DownloadError::RequestError(m)) && m@
            == "HTTP Code not right: "@ + dec_digits(status as nat)),
        status == 200 ==> {
            &&& r is Ok <==> spec_parse_manifest(body@) is Some
            &&& (r matches Ok(resp) ==> resp@ == spec_parse_manifest(body@)->Some_0)
            &&& (r is Err ==> r matches Err(DownloadError::ParseError(_)))
        },
{
    if status != 200 {
        let mut msg = String::from_str("HTTP Code not right: ");
        msg.append(u64_to_decimal(status as u64).as_str());
        return Err(DownloadError::RequestError(msg));
    }
    parse_manifest(body)
}

/// A layer whose strings can stand unescaped in a manifest body.
pub open spec fn layer_wf(l: LayerV) -> bool {
    string_wf(l.media_type) && string_wf(l.digest)
}

/// A manifest all of whose layers are well formed.
pub open spec fn manifest_wf(m: ManifestV) -> bool {
    forall|k: int| 0 <= k < m.layers.len() ==> layer_wf(#[trigger] m.layers[k])
}

/// Canonical rendering of one layer object.
pub open spec fn render_layer(l: LayerV) -> Seq<char> {
    "{"@ + "\"mediaType\""@ + ":"@ + "\""@ + l.media_type + "\""@ + ","@ + "\"size\""@ + ":"@
        + dec_digits(l.size as nat) + ","@ + "\"digest\""@ + ":"@ + "\""@ + l.digest + "\""@
        + "}"@
}

/// Canonical rendering of the layers after the first, closing the array.
pub open spec fn render_more_layers(ls: Seq<LayerV>) -> Seq<char>
    decreases ls.len(),
{
    if ls.len() == 0 {
        "]"@
    } else {
        ","@ + render_layer(ls.first()) + render_more_layers(ls.drop_first())
    }
}

/// Canonical rendering of a layer array.
pub open spec fn render_layers(ls: Seq<LayerV>) -> Seq<char> {
    if ls.len() == 0 {
        "["@ + "]"@
    } else {
        "["@ + render_layer(ls.first()) + render_more_layers(ls.drop_first())
    }
}

/// Canonical rendering of a whole manifest body.
pub open spec fn render_manifest(m: ManifestV) -> Seq<char> {
    "{"@ + "\"schemaVersion\""@ + ":"@ + dec_digits(m.schema_version as nat) + ","@
        + "\"layers\""@ + ":"@ + render_layers(m.layers) + "}"@
}

/// A subrange of a known fragment of `s` matches the fragment's subrange.
proof fn lemma_subrange_shift(s: Seq<char>, i: int, f: Seq<char>, a: int, b: int)
    requires
        0 <= i,
        i + f.len() <= s.len(),
        s.subrange(i, i + f.len()) == f,
        0 <= a <= b <= f.len(),
    ensures
        s.subrange(i + a, i + b) == f.subrange(a, b),
{
    assert forall|t: int| 0 <= t < b - a implies s.subrange(i + a, i + b)[t] == f.subrange(
        a,
        b,
    )[t] by {
        assert(s.subrange(i, i + f.len())[a + t] == s[i + a + t]);
    }
    assert(s.subrange(i + a, i + b) =~= f.subrange(a, b));
}

/// An escape-free rendered string body parses back to its content.
proof fn lemma_string_body_render(s: Seq<char>, i: int, w: Seq<char>)
    requires
        string_wf(w),
        0 <= i,
        i + w.len() + 1 <= s.len(),
        s.subrange(i, i + w.len() + 1) == w + "\""@,
    ensures
        spec_string_body(s, i) == Some((w, i + w.len() + 1)),
    decreases w.len(),
{
    reveal_strlit("\"");
    let f = w + "\""@;
    assert forall|t: int| i <= t < i + f.len() implies #[trigger] s[t] == f[t - i] by {
        assert(s.subrange(i, i + w.len() + 1)[t - i] == s[t]);
    }
    if w.len() == 0 {
        assert(s[i] == '"');
        assert(w =~= Seq::<char>::empty());
    } else {
        assert(s[i] == f[0] && f[0] == w[0]);
        assert(str_char_ok(w[0]));
        assert(s.subrange(i + 1, i + 1 + (w.len() - 1) + 1) =~= w.drop_first() + "\""@);
        assert(forall|k: int|
            0 <= k < w.drop_first().len() ==> str_char_ok(#[trigger] w.drop_first()[k]));
        lemma_string_body_render(s, i + 1, w.drop_first());
        assert(seq![w[0]] + w.drop_first() =~= w);
    }
}

/// A rendered string parses back to itself.
proof fn lemma_parse_string_render(s: Seq<char>, i: int, w: Seq<char>)
    requires
        string_wf(w),
        0 <= i,
        i + w.len() + 2 <= s.len(),
        s.subrange(i, i + w.len() + 2) == "\""@ + w + "\""@,
    ensures
        spec_parse_string(s, i) == Some((w, i + w.len() + 2)),
{
    reveal_strlit("\"");
    let f = "\""@ + w + "\""@;
    assert forall|t: int| i <= t < i + f.len() implies #[trigger] s[t] == f[t - i] by {
        assert(s.subrange(i, i + w.len() + 2)[t - i] == s[t]);
    }
    assert(s[i] == '"');
    assert(s.subrange(i + 1, i + 1 + w.len() + 1) =~= w + "\""@);
    lemma_string_body_render(s, i + 1, w);
}

/// A rendered decimal parses back to its value when no digit follows it.
proof fn lemma_parse_u64_render(s: Seq<char>, i: int, v: u64)
    requires
        0 <= i,
        i + dec_digits(v as nat).len() <= s.len(),
        s.subrange(i, i + dec_digits(v as nat).len()) == dec_digits(v as nat),
        i + dec_digits(v as nat).len() == s.len() || !is_digit(s[i + dec_digits(v as nat).len()]),
    ensures
        spec_parse_u64(s, i) == Some((v, i + dec_digits(v as nat).len())),
{
    let dd = dec_digits(v as nat);
    lemma_dec_digits_shape(v as nat);
    lemma_dec_digits_val(v as nat);
    lemma_dec_digits_no_leading_zero(v as nat);
    assert forall|k: int| i <= k < i + dd.len() implies is_digit(#[trigger] s[k]) by {
        assert(s.subrange(i, i + dd.len())[k - i] == s[k]);
        assert(s[k] == dd[k - i]);
        assert(all_digits(dd));
        assert(is_digit(dd[k - i]));
    }
    lemma_digit_run_exact(s, i, i + dd.len());
    assert(s.subrange(i, i + dd.len())[0] == s[i]);
    assert(s[i] == dd[0]);
    if dd.len() > 1 {
        assert(s[i] != '0');
    }
    assert(digits_val(s.subrange(i, i + dd.len())) == v);
}

/// The canonical rendering of a layer's `digest` member and the closing
/// brace.
spec fn render_digest_close(dg: Seq<char>) -> Seq<char> {
    "\"digest\""@ + ":"@ + "\""@ + dg + "\""@ + "}"@
}

/// The rendered `digest` member parses back, completing a layer whose other
/// fields are already taken.
#[verifier::rlimit(100)]
#[verifier::spinoff_prover]
proof fn lemma_digest_close_render(
    s: Seq<char>,
    i: int,
    mtv: Seq<char>,
    size: u64,
    dg: Seq<char>,
    fuel: nat,
)
    requires
        string_wf(dg),
        0 <= i,
        i + render_digest_close(dg).len() <= s.len(),
        s.subrange(i, i + render_digest_close(dg).len()) == render_digest_close(dg),
        fuel >= 1,
    ensures
        spec_layer_members(s, i, Some(mtv), Some(size), None, fuel) == Some(
            (
                LayerV { media_type: mtv, size, digest: dg },
                i + render_digest_close(dg).len(),
            ),
        ),
{
    reveal_strlit("\"digest\"");
    reveal_strlit("digest");
    reveal_strlit("mediaType");
    reveal_strlit("size");
    reveal_strlit(":");
    reveal_strlit("\"");
    reveal_strlit("}");
    let f = render_digest_close(dg);
    assert(f.len() == 12 + dg.len());
    assert forall|t: int| i <= t < i + f.len() implies #[trigger] s[t] == f[t - i] by {
        assert(s.subrange(i, i + f.len())[t - i] == s[t]);
    }
    let c1 = i + 8;
    let c2 = c1 + 1;
    let c3 = c2 + dg.len() + 2;
    assert(s[i] == f[0] && f[0] == '"');
    assert(string_wf("digest"@));
    assert(s.subrange(i + 1, i + 1 + 6 + 1) =~= "digest"@ + "\""@);
    lemma_string_body_render(s, i + 1, "digest"@);
    assert(s[c1] == f[c1 - i] && f[c1 - i] == ':');
    lemma_skip_ws_noop(s, c1);
    assert(s.subrange(c1, c1 + 1) =~= ":"@);
    assert(spec_expect(s, c1, ":"@) == Some(c2));
    assert(s[c2] == f[c2 - i] && f[c2 - i] == '"');
    lemma_skip_ws_noop(s, c2);
    assert("digest"@ != "mediaType"@ && "digest"@ != "size"@);
    assert(s.subrange(c2, c2 + dg.len() + 2) =~= "\""@ + dg + "\""@);
    lemma_parse_string_render(s, c2, dg);
    assert(s[c3] == f[c3 - i] && f[c3 - i] == '}');
    lemma_skip_ws_noop(s, c3);
}

/// The canonical rendering of a layer's `size` and `digest` members and the
/// closing brace.
spec fn render_layer_tail(size: u64, dg: Seq<char>) -> Seq<char> {
    "\"size\""@ + ":"@ + dec_digits(size as nat) + ","@ + "\"digest\""@ + ":"@ + "\""@ + dg
        + "\""@ + "}"@
}

/// The rendered `size` and `digest` members parse back, completing a layer
/// whose media type is already taken.
#[verifier::rlimit(100)]
#[verifier::spinoff_prover]
proof fn lemma_layer_tail_render(s: Seq<char>, i: int, mtv: Seq<char>, size: u64, dg: Seq<char>, fuel: nat)
    requires
        string_wf(dg),
        0 <= i,
        i + render_layer_tail(size, dg).len() <= s.len(),
        s.subrange(i, i + render_layer_tail(size, dg).len()) == render_layer_tail(size, dg),
        fuel >= 2,
    ensures
        spec_layer_members(s, i, Some(mtv), None, None, fuel) == Some(
            (
                LayerV { media_type: mtv, size, digest: dg },
                i + render_layer_tail(size, dg).len(),
            ),
        ),
{
    reveal_strlit(":");
    reveal_strlit("\"");
    reveal_strlit(",");
    reveal_strlit("\"size\"");
    reveal_strlit("size");
    reveal_strlit("mediaType");
    reveal_strlit("\"digest\"");
    reveal_strlit("digest");
    reveal_strlit("}");
    let dd = dec_digits(size as nat);
    lemma_dec_digits_shape(size as nat);
    let f = render_layer_tail(size, dg);
    assert(f.len() == 20 + dd.len() + dg.len());
    assert forall|t: int| i <= t < i + f.len() implies #[trigger] s[t] == f[t - i] by {
        assert(s.subrange(i, i + f.len())[t - i] == s[t]);
    }
    let a6 = i + 6;
    let a7 = a6 + 1;
    let a8 = a7 + dd.len();
    let a9 = a8 + 1;
    assert(s[i] == f[0] && f[0] == '"');
    assert(string_wf("size"@));
    assert(s.subrange(i + 1, i + 1 + 4 + 1) =~= "size"@ + "\""@);
    lemma_string_body_render(s, i + 1, "size"@);
    assert(s[a6] == f[a6 - i] && f[a6 - i] == ':');
    lemma_skip_ws_noop(s, a6);
    assert(s.subrange(a6, a6 + 1) =~= ":"@);
    assert(spec_expect(s, a6, ":"@) == Some(a7));
    assert(s[a7] == f[a7 - i] && f[a7 - i] == dd[0]);
    assert(all_digits(dd) && is_digit(dd[0]));
    assert(!is_ws(s[a7]));
    lemma_skip_ws_noop(s, a7);
    assert("size"@ != "mediaType"@);
    assert(s.subrange(a7, a7 + dd.len()) =~= dd);
    assert(s[a8] == f[a8 - i] && f[a8 - i] == ',');
    assert(!is_digit(s[a8]));
    lemma_parse_u64_render(s, a7, size);
    lemma_skip_ws_noop(s, a8);
    assert(s[a9] == f[a9 - i] && f[a9 - i] == '"');
    lemma_skip_ws_noop(s, a9);
    assert(s.subrange(a9, a9 + render_digest_close(dg).len()) =~= render_digest_close(dg));
    lemma_digest_close_render(s, a9, mtv, size, dg, (fuel - 1) as nat);
}

/// A rendered layer object parses back to itself.
#[verifier::rlimit(100)]
#[verifier::spinoff_prover]
proof fn lemma_parse_layer_render(s: Seq<char>, i: int, l: LayerV, fuel: nat)
    requires
        layer_wf(l),
        0 <= i,
        i + render_layer(l).len() <= s.len(),
        s.subrange(i, i + render_layer(l).len()) == render_layer(l),
        fuel >= 3,
    ensures
        spec_parse_layer(s, i, fuel) == Some((l, i + render_layer(l).len())),
{
    reveal_strlit("{");
    reveal_strlit("\"mediaType\"");
    reveal_strlit("mediaType");
    reveal_strlit(":");
    reveal_strlit("\"");
    reveal_strlit(",");
    reveal_strlit("size");
    reveal_strlit("digest");
    reveal_strlit("\"size\"");
    reveal_strlit("\"digest\"");
    reveal_strlit("}");
    let mt = l.media_type;
    let dg = l.digest;
    let dd = dec_digits(l.size as nat);
    let f = render_layer(l);
    assert(f.len() == 36 + mt.len() + dd.len() + dg.len());
    assert forall|t: int| i <= t < i + f.len() implies #[trigger] s[t] == f[t - i] by {
        assert(s.subrange(i, i + f.len())[t - i] == s[t]);
    }
    let a1 = i + 1;
    let a2 = a1 + 11;
    let a3 = a2 + 1;
    let a4 = a3 + mt.len() + 2;
    let a5 = a4 + 1;
    assert(s.subrange(i, i + 1) =~= "{"@);
    assert(spec_expect(s, i, "{"@) == Some(a1));
    assert(s[a1] == f[1] && f[1] == '"');
    lemma_skip_ws_noop(s, a1);
    assert(string_wf("mediaType"@));
    assert(s.subrange(a1 + 1, a1 + 1 + 9 + 1) =~= "mediaType"@ + "\""@);
    lemma_string_body_render(s, a1 + 1, "mediaType"@);
    assert(s[a2] == f[a2 - i] && f[a2 - i] == ':');
    lemma_skip_ws_noop(s, a2);
    assert(s.subrange(a2, a2 + 1) =~= ":"@);
    assert(spec_expect(s, a2, ":"@) == Some(a3));
    assert(s[a3] == f[a3 - i] && f[a3 - i] == '"');
    lemma_skip_ws_noop(s, a3);
    assert("mediaType"@ != "size"@ && "mediaType"@ != "digest"@);
    assert(s.subrange(a3, a3 + mt.len() + 2) =~= "\""@ + mt + "\""@);
    lemma_parse_string_render(s, a3, mt);
    assert(s[a4] == f[a4 - i] && f[a4 - i] == ',');
    lemma_skip_ws_noop(s, a4);
    assert(s[a5] == f[a5 - i] && f[a5 - i] == '"');
    lemma_skip_ws_noop(s, a5);
    assert(s.subrange(a5, a5 + render_layer_tail(l.size, dg).len()) =~= render_layer_tail(
        l.size,
        dg,
    ));
    lemma_layer_tail_render(s, a5, mt, l.size, dg, (fuel - 1) as nat);
    assert(LayerV { media_type: mt, size: l.size, digest: dg } == l);
}

/// The rendered tail of a layer array is at least as long as the layers it
/// holds.
proof fn lemma_render_more_layers_len(ls: Seq<LayerV>)
    ensures
        render_more_layers(ls).len() >= ls.len(),
    decreases ls.len(),
{
    reveal_strlit("]");
    reveal_strlit(",");
    if ls.len() > 0 {
        lemma_render_more_layers_len(ls.drop_first());
    }
}

/// The rendered elements of a non-empty layer array parse back to it.
#[verifier::rlimit(100)]
proof fn lemma_layers_elems_render(s: Seq<char>, i: int, ls: Seq<LayerV>, fuel: nat)
    requires
        ls.len() >= 1,
        forall|k: int| 0 <= k < ls.len() ==> layer_wf(#[trigger] ls[k]),
        0 <= i,
        i + render_layer(ls.first()).len() + render_more_layers(ls.drop_first()).len() <= s.len(),
        s.subrange(
            i,
            i + render_layer(ls.first()).len() + render_more_layers(ls.drop_first()).len(),
        ) == render_layer(ls.first()) + render_more_layers(ls.drop_first()),
        fuel >= 3 + ls.len(),
    ensures
        spec_layers_elems(s, i, fuel) == Some(
            (
                ls,
                i + render_layer(ls.first()).len() + render_more_layers(ls.drop_first()).len(),
            ),
        ),
    decreases ls.len(),
{
    reveal_strlit("]");
    reveal_strlit(",");
    reveal_strlit("{");
    let rl = render_layer(ls.first());
    let rm = render_more_layers(ls.drop_first());
    let f = rl + rm;
    assert forall|t: int| i <= t < i + f.len() implies #[trigger] s[t] == f[t - i] by {
        assert(s.subrange(i, i + f.len())[t - i] == s[t]);
    }
    lemma_subrange_shift(s, i, f, 0, rl.len() as int);
    assert(f.subrange(0, rl.len() as int) =~= rl);
    lemma_parse_layer_render(s, i, ls.first(), (fuel - 1) as nat);
    let e = i + rl.len();
    if ls.len() == 1 {
        assert(rm =~= "]"@);
        assert(s[e] == f[e - i] && f[e - i] == ']');
        lemma_skip_ws_noop(s, e);
        assert(seq![ls.first()] =~= ls);
    } else {
        let rest = ls.drop_first();
        let rl2 = render_layer(rest.first());
        let rm2 = render_more_layers(rest.drop_first());
        assert(rm =~= ","@ + rl2 + rm2);
        assert(s[e] == f[e - i] && f[e - i] == ',');
        lemma_skip_ws_noop(s, e);
        assert(s[e] != ']');
        assert(render_layer(rest.first())[0] == '{');
        assert(s[e + 1] == f[e + 1 - i] && f[e + 1 - i] == '{');
        assert(!is_ws(s[e + 1]));
        lemma_skip_ws_noop(s, e + 1);
        lemma_subrange_shift(s, i, f, rl.len() as int + 1, f.len() as int);
        assert(f.subrange(rl.len() as int + 1, f.len() as int) =~= rl2 + rm2);
        assert(forall|k: int| 0 <= k < rest.len() ==> layer_wf(#[trigger] rest[k]));
        lemma_layers_elems_render(s, e + 1, rest, (fuel - 1) as nat);
        assert(seq![ls.first()] + rest =~= ls);
    }
}

/// A rendered layer array parses back to its layers.
proof fn lemma_parse_layers_render(s: Seq<char>, i: int, ls: Seq<LayerV>, fuel: nat)
    requires
        forall|k: int| 0 <= k < ls.len() ==> layer_wf(#[trigger] ls[k]),
        0 <= i,
        i + render_layers(ls).len() <= s.len(),
        s.subrange(i, i + render_layers(ls).len()) == render_layers(ls),
        fuel >= 3 + ls.len(),
    ensures
        spec_parse_layers(s, i, fuel) == Some((ls, i + render_layers(ls).len())),
{
    reveal_strlit("[");
    reveal_strlit("]");
    reveal_strlit(",");
    reveal_strlit("{");
    let f = render_layers(ls);
    assert forall|t: int| i <= t < i + f.len() implies #[trigger] s[t] == f[t - i] by {
        assert(s.subrange(i, i + f.len())[t - i] == s[t]);
    }
    assert(s.subrange(i, i + 1) =~= "["@);
    assert(spec_expect(s, i, "["@) == Some(i + 1));
    if ls.len() == 0 {
        assert(s[i + 1] == f[1] && f[1] == ']');
        lemma_skip_ws_noop(s, i + 1);
        assert(ls =~= Seq::<LayerV>::empty());
    } else {
        let rl = render_layer(ls.first());
        let rm = render_more_layers(ls.drop_first());
        assert(f.len() == 1 + rl.len() + rm.len());
        assert(render_layer(ls.first())[0] == '{');
        assert(s[i + 1] == f[1] && f[1] == '{');
        assert(!is_ws(s[i + 1]));
        assert(s[i + 1] != ']');
        lemma_skip_ws_noop(s, i + 1);
        lemma_subrange_shift(s, i, f, 1, f.len() as int);
        assert(f.subrange(1, f.len() as int) =~= rl + rm);
        lemma_layers_elems_render(s, i + 1, ls, fuel);
    }
}

/// The canonical rendering of the manifest's `layers` member and the
/// closing brace.
spec fn render_layers_member_close(ls: Seq<LayerV>) -> Seq<char> {
    "\"layers\""@ + ":"@ + render_layers(ls) + "}"@
}

/// The rendered `layers` member parses back, completing a manifest whose
/// schema version is already taken.
#[verifier::rlimit(100)]
#[verifier::spinoff_prover]
proof fn lemma_layers_member_render(s: Seq<char>, i: int, ver: u32, ls: Seq<LayerV>, fuel: nat)
    requires
        forall|k: int| 0 <= k < ls.len() ==> layer_wf(#[trigger] ls[k]),
        0 <= i,
        i + render_layers_member_close(ls).len() <= s.len(),
        s.subrange(i, i + render_layers_member_close(ls).len()) == render_layers_member_close(ls),
        fuel >= 4 + ls.len(),
    ensures
        spec_manifest_members(s, i, Some(ver), None, fuel) == Some(
            (
                ManifestV { schema_version: ver, layers: ls },
                i + render_layers_member_close(ls).len(),
            ),
        ),
{
    reveal_strlit("\"layers\"");
    reveal_strlit("layers");
    reveal_strlit("schemaVersion");
    reveal_strlit(":");
    reveal_strlit("\"");
    reveal_strlit("[");
    reveal_strlit("]");
    reveal_strlit("{");
    reveal_strlit("}");
    let rl = render_layers(ls);
    let f = render_layers_member_close(ls);
    assert(f.len() == 10 + rl.len());
    assert forall|t: int| i <= t < i + f.len() implies #[trigger] s[t] == f[t - i] by {
        assert(s.subrange(i, i + f.len())[t - i] == s[t]);
    }
    let d1 = i + 8;
    let d2 = d1 + 1;
    let d3 = d2 + rl.len();
    assert(s[i] == f[0] && f[0] == '"');
    assert(string_wf("layers"@));
    assert(s.subrange(i + 1, i + 1 + 6 + 1) =~= "layers"@ + "\""@);
    lemma_string_body_render(s, i + 1, "layers"@);
    assert(s[d1] == f[d1 - i] && f[d1 - i] == ':');
    lemma_skip_ws_noop(s, d1);
    assert(s.subrange(d1, d1 + 1) =~= ":"@);
    assert(spec_expect(s, d1, ":"@) == Some(d2));
    assert(rl[0] == '[');
    assert(s[d2] == f[d2 - i] && f[d2 - i] == '[');
    assert(!is_ws(s[d2]));
    lemma_skip_ws_noop(s, d2);
    assert("layers"@ != "schemaVersion"@);
    assert(s.subrange(d2, d2 + rl.len()) =~= rl);
    lemma_parse_layers_render(s, d2, ls, (fuel - 1) as nat);
    assert(s[d3] == f[d3 - i] && f[d3 - i] == '}');
    lemma_skip_ws_noop(s, d3);
}

/// Manifest parse round-trip: the canonical rendering of any well-formed
/// manifest parses back to that manifest exactly, layer count, sizes and
/// digests included.
#[verifier::rlimit(100)]
#[verifier::spinoff_prover]
pub proof fn lemma_manifest_parse_round_trip(m: ManifestV)
    requires
        manifest_wf(m),
    ensures
        spec_parse_manifest(render_manifest(m)) == Some(m),
{
    reveal_strlit("{");
    reveal_strlit("\"schemaVersion\"");
    reveal_strlit("schemaVersion");
    reveal_strlit(":");
    reveal_strlit(",");
    reveal_strlit("\"layers\"");
    reveal_strlit("layers");
    reveal_strlit("}");
    reveal_strlit("[");
    reveal_strlit("\"");
    let s = render_manifest(m);
    let dd = dec_digits(m.schema_version as nat);
    lemma_dec_digits_shape(m.schema_version as nat);
    let rl = render_layers(m.layers);
    assert(s.len() == 28 + dd.len() + rl.len());
    let fuel = (4 * s.len() + 8) as nat;
    if m.layers.len() > 0 {
        lemma_render_more_layers_len(m.layers.drop_first());
    }
    assert(rl.len() >= m.layers.len());
    let b1 = 1int;
    let b2 = b1 + 15;
    let b3 = b2 + 1;
    let b4 = b3 + dd.len();
    let b5 = b4 + 1;
    let b9 = b5 + 10 + rl.len();
    assert(s[0] == '{');
    lemma_skip_ws_noop(s, 0);
    assert(s.subrange(0, 1) =~= "{"@);
    assert(spec_expect(s, 0, "{"@) == Some(b1));
    assert(s[b1] == '"');
    lemma_skip_ws_noop(s, b1);
    assert(string_wf("schemaVersion"@));
    assert(s.subrange(b1 + 1, b1 + 1 + 13 + 1) =~= "schemaVersion"@ + "\""@);
    lemma_string_body_render(s, b1 + 1, "schemaVersion"@);
    assert(s[b2] == ':');
    lemma_skip_ws_noop(s, b2);
    assert(s.subrange(b2, b2 + 1) =~= ":"@);
    assert(spec_expect(s, b2, ":"@) == Some(b3));
    assert(s[b3] == dd[0]);
    assert(all_digits(dd) && is_digit(dd[0]));
    assert(!is_ws(s[b3]));
    lemma_skip_ws_noop(s, b3);
    assert(s.subrange(b3, b3 + dd.len()) =~= dd);
    assert(s[b4] == ',');
    assert(!is_digit(s[b4]));
    lemma_parse_u64_render(s, b3, m.schema_version as u64);
    assert(m.schema_version as u64 <= u32::MAX);
    assert((m.schema_version as u64) as u32 == m.schema_version);
    lemma_skip_ws_noop(s, b4);
    assert(s[b5] == '"');
    lemma_skip_ws_noop(s, b5);
    assert(s.subrange(b5, b5 + render_layers_member_close(m.layers).len())
        =~= render_layers_member_close(m.layers));
    assert((fuel - 1) as nat >= 4 + m.layers.len());
    lemma_layers_member_render(s, b5, m.schema_version, m.layers, (fuel - 1) as nat);
    assert(b9 == s.len());
    lemma_skip_ws_noop(s, b9);
    assert(ManifestV { schema_version: m.schema_version, layers: m.layers } == m);
}

} // verus!
