//! Diagnostic text for the object tree: a compact one-line form and an
//! indented form. Numbers render exactly from their fixed-point value;
//! name, string and payload bytes render as text with any invalid
//! sequences replaced.

use vstd::prelude::*;

use crate::numbers::Fixed;
use crate::object::{Dictionary, Object};
use crate::utils::{spec_ascii_chars, spec_dec_bytes, u64_dec_bytes, lemma_dec_bytes_ascii};

verus! {

/// What the bytes spell as text, with invalid sequences replaced.
pub uninterp spec fn lossy_utf8_of(bytes: Seq<u8>) -> Seq<char>;

/// Relies on `String::from_utf8_lossy`: the text depends on the bytes
/// alone; invalid sequences become replacement characters.
#[verifier::external_body]
fn lossy_string(bytes: &[u8]) -> (r: String)
    ensures
        r@ == lossy_utf8_of(bytes@),
{
    String::from_utf8_lossy(bytes).to_string()
}

/// The decimal text of a signed whole number.
pub open spec fn spec_i64_chars(v: int) -> Seq<char> {
    if v < 0 {
        seq!['-'] + spec_ascii_chars(spec_dec_bytes((-v) as nat))
    } else {
        spec_ascii_chars(spec_dec_bytes(v as nat))
    }
}

/// Writes a signed whole number in decimal.
pub fn i64_to_string(v: i64) -> (r: String)
    ensures
        r@ == spec_i64_chars(v as int),
{
    let mag: u64 = if v < 0 {
        if v == i64::MIN {
            9223372036854775808u64
        } else {
            (-v) as u64
        }
    } else {
        v as u64
    };
    let digits = u64_dec_bytes(mag);
    proof {
        lemma_dec_bytes_ascii(mag as nat);
    }
    let tail = crate::utils::bytes_to_ascii_string(digits);
    if v < 0 {
        let mut out = String::new();
        out.append("-");
        out.append(tail.as_str());
        proof {
            reveal_strlit("-");
            assert(out@ =~= seq!['-'] + tail@);
        }
        out
    } else {
        tail
    }
}

/// Drops trailing zero digits; all-zero digit runs vanish entirely.
pub open spec fn spec_trim_zero_bytes(s: Seq<u8>) -> Seq<u8>
    decreases s.len(),
{
    if s.len() > 0 && s[s.len() - 1] == 48 {
        spec_trim_zero_bytes(s.drop_last())
    } else {
        s
    }
}

/// The six fractional digits of a micro-unit remainder, zero-padded.
pub open spec fn spec_pad6_bytes(f: nat) -> Seq<u8> {
    seq![
        (48 + (f / 100000) % 10) as u8,
        (48 + (f / 10000) % 10) as u8,
        (48 + (f / 1000) % 10) as u8,
        (48 + (f / 100) % 10) as u8,
        (48 + (f / 10) % 10) as u8,
        (48 + f % 10) as u8,
    ]
}

/// The decimal text of a fixed-point value: the whole part, and the
/// fractional digits with trailing zeros trimmed when any remain.
pub open spec fn spec_fixed_chars(micros: int) -> Seq<char> {
    let sign: Seq<char> = if micros < 0 {
        seq!['-']
    } else {
        Seq::empty()
    };
    let mag = if micros < 0 {
        -micros
    } else {
        micros
    };
    let whole = spec_ascii_chars(spec_dec_bytes((mag / 1000000) as nat));
    let frac = spec_trim_zero_bytes(spec_pad6_bytes((mag % 1000000) as nat));
    if frac.len() == 0 {
        sign + whole
    } else {
        sign + whole + seq!['.'] + spec_ascii_chars(frac)
    }
}

/// Writes a fixed-point value in decimal.
pub fn fixed_to_string(v: Fixed) -> (r: String)
    ensures
        r@ == spec_fixed_chars(v.micros as int),
{
    let neg = v.micros < 0;
    let mag: u64 = if neg {
        if v.micros == i64::MIN {
            9223372036854775808u64
        } else {
            (-v.micros) as u64
        }
    } else {
        v.micros as u64
    };
    let whole_digits = u64_dec_bytes(mag / 1000000);
    proof {
        lemma_dec_bytes_ascii((mag / 1000000) as nat);
    }
    let whole = crate::utils::bytes_to_ascii_string(whole_digits);
    let f = mag % 1000000;
    let mut frac: Vec<u8> = Vec::new();
    frac.push(48 + ((f / 100000) % 10) as u8);
    frac.push(48 + ((f / 10000) % 10) as u8);
    frac.push(48 + ((f / 1000) % 10) as u8);
    frac.push(48 + ((f / 100) % 10) as u8);
    frac.push(48 + ((f / 10) % 10) as u8);
    frac.push(48 + (f % 10) as u8);
    proof {
        assert(frac@ =~= spec_pad6_bytes((f as nat)));
    }
    while frac.len() > 0 && frac[frac.len() - 1] == 48
        invariant
            forall|i: int| 0 <= i < frac@.len() ==> 48 <= #[trigger] frac@[i] <= 57,
            spec_trim_zero_bytes(frac@) == spec_trim_zero_bytes(spec_pad6_bytes(f as nat)),
        decreases frac@.len(),
    {
        let ghost before = frac@;
        frac.pop();
        proof {
            assert(frac@ =~= before.drop_last());
        }
    }
    proof {
        assert(spec_trim_zero_bytes(frac@) == frac@);
    }
    let mut out = String::new();
    if neg {
        out.append("-");
    }
    out.append(whole.as_str());
    if frac.len() > 0 {
        out.append(".");
        let ftext = crate::utils::bytes_to_ascii_string(frac);
        out.append(ftext.as_str());
    }
    proof {
        reveal_strlit("-");
        reveal_strlit(".");
        assert(out@ =~= spec_fixed_chars(v.micros as int));
    }
    out
}

/// A run of spaces four deep per indent level.
fn indent_spaces(level: usize) -> (r: String)
    ensures
        r@.len() == 4 * level,
        forall|i: int| 0 <= i < r@.len() ==> r@[i] == ' ',
{
    let mut out = String::new();
    let mut k: usize = 0;
    while k < level
        invariant
            0 <= k <= level,
            out@.len() == 4 * k,
            forall|i: int| 0 <= i < out@.len() ==> out@[i] == ' ',
            level <= usize::MAX,
        decreases level - k,
    {
        out.append("    ");
        proof {
            reveal_strlit("    ");
        }
        k = k + 1;
    }
    out
}

impl Object {
    /// One line of diagnostic text for the object: numbers exactly,
    /// names after a slash, strings quoted, composites with their
    /// children joined inline.
    pub fn debug_object(&self) -> (r: String)
        ensures
            match *self {
                Object::Null => r@ == "<null>"@,
                Object::Boolean(b) => r@ == if b {
                    "true"@
                } else {
                    "false"@
                },
                Object::Integer(n) => r@ == spec_i64_chars(n as int),
                Object::Real(f) => r@ == spec_fixed_chars(f.micros as int),
                Object::Name(n) => r@ == "/"@ + lossy_utf8_of(n@),
                Object::String(s, _) => r@ == "\""@ + lossy_utf8_of(s@) + "\""@,
                Object::Reference(id) => r@ == "("@ + spec_i64_chars(id.0 as int) + ", "@
                    + spec_i64_chars(id.1 as int) + ")"@,
                _ => r@.len() > 0,
            },
        decreases self,
    {
        match self {
            Object::Array(s) => {
                let mut result = String::new();
                result.append("[ ");
                proof {
                    reveal_strlit("[ ");
                }
                let n = s.len();
                let mut i: usize = 0;
                while i < n
                    invariant
                        0 <= i <= n,
                        n == s@.len(),
                        *self == Object::Array(*s),
                        result@.len() > 0,
                    decreases n - i,
                {
                    proof {
                        assert(decreases_to!(*self => self->Array_0));
                        assert(decreases_to!(self->Array_0 => self->Array_0@));
                        assert(decreases_to!(self->Array_0@ => self->Array_0@[i as int]));
                        assert(s@[i as int] == self->Array_0@[i as int]);
                    }
                    let piece = s[i].debug_object();
                    result.append(piece.as_str());
                    if i + 1 < n {
                        result.append(", ");
                    }
                    i = i + 1;
                }
                result.append(" ]");
                result
            },
            Object::Real(f) => fixed_to_string(*f),
            Object::Integer(n) => i64_to_string(*n),
            Object::Null => {
                let mut result = String::new();
                result.append("<null>");
                proof {
                    assert(result@ =~= "<null>"@);
                }
                result
            },
            Object::Name(n) => {
                let mut result = String::new();
                result.append("/");
                let text = lossy_string(n.as_slice());
                result.append(text.as_str());
                proof {
                    assert(result@ =~= "/"@ + lossy_utf8_of(n@));
                }
                result
            },
            Object::Boolean(b) => {
                let mut result = String::new();
                if *b {
                    result.append("true");
                } else {
                    result.append("false");
                }
                proof {
                    assert(result@ =~= if *b {
                        "true"@
                    } else {
                        "false"@
                    });
                }
                result
            },
            Object::Reference(id) => {
                let mut result = String::new();
                result.append("(");
                let num = i64_to_string(id.0 as i64);
                result.append(num.as_str());
                result.append(", ");
                let gen = i64_to_string(id.1 as i64);
                result.append(gen.as_str());
                result.append(")");
                proof {
                    assert(result@ =~= "("@ + spec_i64_chars(id.0 as int) + ", "@
                        + spec_i64_chars(id.1 as int) + ")"@);
                }
                result
            },
            Object::String(s, _f) => {
                let mut result = String::new();
                result.append("\"");
                let text = lossy_string(s.as_slice());
                result.append(text.as_str());
                result.append("\"");
                proof {
                    assert(result@ =~= "\""@ + lossy_utf8_of(s@) + "\""@);
                }
                result
            },
            Object::Dictionary(d) => {
                let r = d.debug_dict();
                proof {
                    reveal_strlit("{");
                }
                r
            },
            Object::Stream(st) => {
                let mut result = String::new();
                result.append("Stream => { Dict => ");
                proof {
                    reveal_strlit("Stream => { Dict => ");
                }
                let dict_text = st.dict.debug_dict();
                result.append(dict_text.as_str());
                result.append(", Bytes (first 50) => ");
                let take = if st.content.len() < 100 {
                    st.content.len()
                } else {
                    100
                };
                let prefix = crate::parse::copy_region(st.content.as_slice(), 0, take);
                let text = lossy_string(prefix.as_slice());
                result.append(text.as_str());
                result.append(" }");
                result
            },
        }
    }

    /// Indented diagnostic text for the object, four spaces per level.
    pub fn debug_object_pretty(&self, indent_level: usize) -> (r: String)
        ensures
            match *self {
                Object::Null => r@ == "<null>"@,
                Object::Boolean(b) => r@ == if b {
                    "true"@
                } else {
                    "false"@
                },
                Object::Integer(n) => r@ == spec_i64_chars(n as int),
                Object::Real(f) => r@ == spec_fixed_chars(f.micros as int),
                Object::Name(n) => r@ == "/"@ + lossy_utf8_of(n@),
                Object::String(s, _) => r@ == "\""@ + lossy_utf8_of(s@) + "\""@,
                Object::Reference(id) => r@ == "("@ + spec_i64_chars(id.0 as int) + ", "@
                    + spec_i64_chars(id.1 as int) + ")"@,
                _ => r@.len() > 0,
            },
        decreases self,
    {
        let next_level = if indent_level < usize::MAX {
            indent_level + 1
        } else {
            indent_level
        };
        let lower = if indent_level > 0 {
            indent_level - 1
        } else {
            0
        };
        match self {
            Object::Array(s) => {
                let indent = indent_spaces(indent_level);
                let indent_minus_one = indent_spaces(lower);
                let mut result = String::new();
                result.append("[\n");
                proof {
                    reveal_strlit("[\n");
                }
                let n = s.len();
                let mut i: usize = 0;
                while i < n
                    invariant
                        0 <= i <= n,
                        n == s@.len(),
                        *self == Object::Array(*s),
                        result@.len() > 0,
                        indent_level < usize::MAX ==> next_level == indent_level + 1,
                    decreases n - i,
                {
                    proof {
                        assert(decreases_to!(*self => self->Array_0));
                        assert(decreases_to!(self->Array_0 => self->Array_0@));
                        assert(decreases_to!(self->Array_0@ => self->Array_0@[i as int]));
                        assert(s@[i as int] == self->Array_0@[i as int]);
                    }
                    result.append(indent.as_str());
                    let piece = s[i].debug_object_pretty(next_level);
                    result.append(piece.as_str());
                    if i + 1 < n {
                        result.append(",\n");
                    }
                    i = i + 1;
                }
                result.append("\n");
                result.append(indent_minus_one.as_str());
                result.append("]");
                result
            },
            Object::Real(f) => fixed_to_string(*f),
            Object::Integer(n) => i64_to_string(*n),
            Object::Null => {
                let mut result = String::new();
                result.append("<null>");
                proof {
                    assert(result@ =~= "<null>"@);
                }
                result
            },
            Object::Name(n) => {
                let mut result = String::new();
                result.append("/");
                let text = lossy_string(n.as_slice());
                result.append(text.as_str());
                proof {
                    assert(result@ =~= "/"@ + lossy_utf8_of(n@));
                }
                result
            },
            Object::Boolean(b) => {
                let mut result = String::new();
                if *b {
                    result.append("true");
                } else {
                    result.append("false");
                }
                proof {
                    assert(result@ =~= if *b {
                        "true"@
                    } else {
                        "false"@
                    });
                }
                result
            },
            Object::Reference(id) => {
                let mut result = String::new();
                result.append("(");
                let num = i64_to_string(id.0 as i64);
                result.append(num.as_str());
                result.append(", ");
                let gen = i64_to_string(id.1 as i64);
                result.append(gen.as_str());
                result.append(")");
                proof {
                    assert(result@ =~= "("@ + spec_i64_chars(id.0 as int) + ", "@
                        + spec_i64_chars(id.1 as int) + ")"@);
                }
                result
            },
            Object::String(s, _f) => {
                let mut result = String::new();
                result.append("\"");
                let text = lossy_string(s.as_slice());
                result.append(text.as_str());
                result.append("\"");
                proof {
                    assert(result@ =~= "\""@ + lossy_utf8_of(s@) + "\""@);
                }
                result
            },
            Object::Dictionary(d) => {
                let r = d.debug_dict_pretty(indent_level);
                proof {
                    reveal_strlit("{\n");
                }
                r
            },
            Object::Stream(st) => {
                let indent = indent_spaces(indent_level);
                let indent_minus_one = indent_spaces(lower);
                let mut result = String::new();
                result.append("Stream => {\n");
                proof {
                    reveal_strlit("Stream => {\n");
                }
                result.append(indent.as_str());
                result.append("Dict => ");
                let dict_text = st.dict.debug_dict_pretty(next_level);
                result.append(dict_text.as_str());
                result.append("\n");
                result.append(indent.as_str());
                result.append("Bytes (first 50) => ");
                let take = if st.content.len() < 100 {
                    st.content.len()
                } else {
                    100
                };
                let prefix = crate::parse::copy_region(st.content.as_slice(), 0, take);
                let text = lossy_string(prefix.as_slice());
                result.append(text.as_str());
                result.append("\n");
                result.append(indent_minus_one.as_str());
                result.append("}");
                result
            },
        }
    }
}

impl Dictionary {
    /// One line of diagnostic text: each entry as `/key => value,`.
    pub fn debug_dict(&self) -> (r: String)
        ensures
            r@.len() > 0,
        decreases self,
    {
        let mut result = String::new();
        result.append("{");
        proof {
            reveal_strlit("{");
        }
        let n = self.entries.len();
        let mut i: usize = 0;
        while i < n
            invariant
                0 <= i <= n,
                n == self.entries@.len(),
                result@.len() > 0,
            decreases n - i,
        {
            result.append(" /");
            let key = lossy_string(self.entries[i].0.as_slice());
            result.append(key.as_str());
            result.append(" => ");
            let piece = self.entries[i].1.debug_object();
            result.append(piece.as_str());
            result.append(",");
            i = i + 1;
        }
        result.append(" }");
        result
    }

    /// Indented diagnostic text: one entry per line.
    pub fn debug_dict_pretty(&self, indent_level: usize) -> (r: String)
        ensures
            r@.len() > 0,
        decreases self,
    {
        let next_level = if indent_level < usize::MAX {
            indent_level + 1
        } else {
            indent_level
        };
        let lower = if indent_level > 0 {
            indent_level - 1
        } else {
            0
        };
        let indent = indent_spaces(indent_level);
        let indent_minus_one = indent_spaces(lower);
        let mut result = String::new();
        result.append("{\n");
        proof {
            reveal_strlit("{\n");
        }
        let n = self.entries.len();
        let mut i: usize = 0;
        while i < n
            invariant
                0 <= i <= n,
                n == self.entries@.len(),
                result@.len() > 0,
                indent_level < usize::MAX ==> next_level == indent_level + 1,
            decreases n - i,
        {
            result.append(indent.as_str());
            result.append("/");
            let key = lossy_string(self.entries[i].0.as_slice());
            result.append(key.as_str());
            result.append(" => ");
            let piece = self.entries[i].1.debug_object_pretty(next_level);
            result.append(piece.as_str());
            result.append("\n");
            i = i + 1;
        }
        result.append(indent_minus_one.as_str());
        result.append("}");
        result
    }
}

} // verus!
