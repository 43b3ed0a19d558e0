//! Output formatting: compact JSON, indented JSON, or line-oriented YAML
//! with terminal-native highlighting.  The YAML highlighter bolds mapping
//! keys with plain terminal attributes; when the destination is not an
//! interactive terminal the decoration is omitted entirely.

use vstd::prelude::*;
use crate::bytes::ascii;
use crate::bytes::ascii_bytes;
use crate::bytes::find_sub;
use crate::bytes::find_sub_bytes;
use crate::bytes::lemma_find_sub;
use crate::bytes::seq_views;
use crate::bytes::split_on;
use crate::bytes::split_on_bytes;
use crate::bytes::subvec;
use crate::envelope::EventEnvelope;
use crate::json::field_views;
use crate::json::json_compact;
use crate::json::json_object_of;
use crate::json::json_pretty;
use crate::json::object_value;
use crate::json::to_compact;
use crate::json::to_pretty;
use crate::json::to_yaml;
use crate::json::yaml_text;

verus! {

/// Output rendering, selected once at startup.
#[derive(Clone, Copy)]
pub enum OutputMode {
    /// Compact single-line JSON, newline-terminated.
    Jsonl,
    /// Indented multi-line JSON, newline-terminated.
    PrettyJson,
    /// Line-oriented YAML with terminal highlighting when interactive.
    PrettyYaml,
}

// ---------------------------------------------------------------------------
// YAML highlighting
// ---------------------------------------------------------------------------

/// How many leading blanks (spaces or tabs) a line carries.
pub open spec fn trim_len(s: Seq<u8>) -> int
    decreases s.len(),
{
    if s.len() > 0 && (s[0] == 32 || s[0] == 9) {
        1 + trim_len(s.drop_first())
    } else {
        0
    }
}

/// The leading-blank count is within the line.
pub proof fn lemma_trim_len_bounds(s: Seq<u8>)
    ensures
        0 <= trim_len(s) <= s.len(),
    decreases s.len(),
{
    if s.len() > 0 && (s[0] == 32 || s[0] == 9) {
        lemma_trim_len_bounds(s.drop_first());
    }
}

/// A line with a trailing carriage return removed.
pub open spec fn strip_cr(line: Seq<u8>) -> Seq<u8> {
    if line.len() > 0 && line.last() == 13 {
        line.drop_last()
    } else {
        line
    }
}

/// Where the key/value separator of a YAML mapping line sits: the first
/// `": "` of the trimmed content (as a position in the whole line), or the
/// final byte when the line ends in a bare colon.
pub open spec fn spec_colon_pos(line: Seq<u8>) -> Option<int> {
    let trimmed = line.skip(trim_len(line));
    match find_sub(trimmed, seq![58u8, 32u8]) {
        Some(p) => Some(p + trim_len(line)),
        None => if line.len() > 0 && line.last() == 58 {
            Some(line.len() - 1)
        } else {
            None
        },
    }
}

/// One highlighted output line: a mapping line (not empty, not a list
/// item, not a comment, with a key/colon span) has the key and colon
/// wrapped in bold attributes; every other line passes through.  The
/// output line is newline-terminated.
pub open spec fn spec_highlight_line(piece: Seq<u8>) -> Seq<u8> {
    let line = strip_cr(piece);
    let trimmed = line.skip(trim_len(line));
    if trimmed.len() > 0 && trimmed[0] != 45 && trimmed[0] != 35 {
        match spec_colon_pos(line) {
            Some(cp) => ascii("\x1b[1m") + line.take(cp + 1) + ascii("\x1b[22m") + line.skip(
                cp + 1,
            ) + seq![10u8],
            None => line + seq![10u8],
        }
    } else {
        line + seq![10u8]
    }
}

/// The concatenation of the highlighted forms of a list of lines.
pub open spec fn spec_highlight_lines(ls: Seq<Seq<u8>>) -> Seq<u8>
    decreases ls.len(),
{
    if ls.len() == 0 {
        Seq::empty()
    } else {
        spec_highlight_line(ls[0]) + spec_highlight_lines(ls.drop_first())
    }
}

/// The lines of a text: pieces between newlines, without a final empty
/// piece when the text ends in a newline.
pub open spec fn spec_lines(t: Seq<u8>) -> Seq<Seq<u8>> {
    let ls = split_on(t, seq![10u8]);
    if t.len() > 0 && t.last() == 10 {
        ls.drop_last()
    } else {
        ls
    }
}

/// A whole highlighted text, line by line.
pub open spec fn spec_highlight(t: Seq<u8>) -> Seq<u8> {
    if t.len() == 0 {
        Seq::empty()
    } else {
        spec_highlight_lines(spec_lines(t))
    }
}

/// Minimal YAML highlighter using terminal-native attributes (bold for
/// keys, the terminal's default foreground for values) instead of a color
/// theme.
pub struct YamlHighlighter;

impl YamlHighlighter {
    /// A highlighter; it carries no state.
    pub fn new() -> (r: Self) {
        YamlHighlighter
    }

    /// Highlight one line, newline-terminated.
    fn highlight_line(&self, piece: &Vec<u8>) -> (r: Vec<u8>)
        ensures
            r@ == spec_highlight_line(piece@),
    {
        let piece_len = piece.len();
        let line = if piece_len > 0 && piece[piece_len - 1] == 13 {
            subvec(piece, 0, piece_len - 1)
        } else {
            subvec(piece, 0, piece_len)
        };
        proof {
            assert(line@ =~= strip_cr(piece@));
            lemma_trim_len_bounds(line@);
        }
        let tl = trim_start_len(&line);
        let line_len = line.len();
        let trimmed = subvec(&line, tl, line_len);
        proof {
            assert(trimmed@ =~= line@.skip(trim_len(line@)));
        }
        let mut r: Vec<u8> = Vec::new();
        if trimmed.len() > 0 && trimmed[0] != 45 && trimmed[0] != 35 {
            proof {
                lemma_find_sub(trimmed@, seq![58u8, 32u8]);
            }
            let mut sep: Vec<u8> = Vec::new();
            sep.push(58);
            sep.push(32);
            proof {
                assert(sep@ =~= seq![58u8, 32u8]);
            }
            let colon_pos: Option<usize> = match find_sub_bytes(&trimmed, &sep) {
                Some(p) => Some(p + tl),
                None => if line_len > 0 && line[line_len - 1] == 58 {
                    Some(line_len - 1)
                } else {
                    None
                },
            };
            match colon_pos {
                Some(cp) => {
                    proof {
                        reveal_strlit("\x1b[1m");
                        reveal_strlit("\x1b[22m");
                    }
                    let bold = ascii_bytes("\x1b[1m");
                    let unbold = ascii_bytes("\x1b[22m");
                    r.extend_from_slice(bold.as_slice());
                    let head = subvec(&line, 0, cp + 1);
                    r.extend_from_slice(head.as_slice());
                    r.extend_from_slice(unbold.as_slice());
                    let tail = subvec(&line, cp + 1, line_len);
                    r.extend_from_slice(tail.as_slice());
                    r.push(10);
                    proof {
                        assert(r@ =~= spec_highlight_line(piece@));
                    }
                },
                None => {
                    r.extend_from_slice(line.as_slice());
                    r.push(10);
                    proof {
                        assert(r@ =~= spec_highlight_line(piece@));
                    }
                },
            }
        } else {
            r.extend_from_slice(line.as_slice());
            r.push(10);
            proof {
                assert(r@ =~= spec_highlight_line(piece@));
            }
        }
        r
    }

    /// Highlight a YAML text by bolding mapping keys, leaving values in the
    /// terminal's default foreground.
    pub fn highlight(&self, yaml_text: &Vec<u8>) -> (r: Vec<u8>)
        ensures
            r@ == spec_highlight(yaml_text@),
    {
        let text_len = yaml_text.len();
        if text_len == 0 {
            let r: Vec<u8> = Vec::new();
            proof {
                assert(r@ =~= spec_highlight(yaml_text@));
            }
            return r;
        }
        let mut nlv: Vec<u8> = Vec::new();
        nlv.push(10);
        proof {
            assert(nlv@ =~= seq![10u8]);
        }
        let mut pieces = split_on_bytes(yaml_text, &nlv);
        if yaml_text[text_len - 1] == 10 {
            proof {
                crate::wire::lemma_split_on_len(yaml_text@, seq![10u8]);
                assert(seq_views(pieces@).drop_last() =~= seq_views(pieces@.drop_last()));
            }
            pieces.pop();
        }
        proof {
            assert(seq_views(pieces@) == spec_lines(yaml_text@));
        }
        let mut out: Vec<u8> = Vec::new();
        let mut k: usize = 0;
        proof {
            assert(seq_views(pieces@).skip(0) =~= seq_views(pieces@));
            assert(out@ + spec_highlight_lines(seq_views(pieces@).skip(0)) =~= spec_highlight_lines(
                seq_views(pieces@),
            ));
        }
        while k < pieces.len()
            invariant
                k <= pieces@.len(),
                seq_views(pieces@) == spec_lines(yaml_text@),
                yaml_text@.len() > 0,
                spec_highlight_lines(spec_lines(yaml_text@)) == out@ + spec_highlight_lines(
                    seq_views(pieces@).skip(k as int),
                ),
            decreases pieces@.len() - k,
        {
            let styled = self.highlight_line(&pieces[k]);
            proof {
                assert(seq_views(pieces@).skip(k as int)[0] == pieces@[k as int]@);
                assert(seq_views(pieces@).skip(k as int).drop_first() =~= seq_views(
                    pieces@,
                ).skip(k as int + 1));
                assert((out@ + spec_highlight_line(pieces@[k as int]@)) + spec_highlight_lines(
                    seq_views(pieces@).skip(k as int + 1),
                ) =~= out@ + (spec_highlight_line(pieces@[k as int]@) + spec_highlight_lines(
                    seq_views(pieces@).skip(k as int + 1),
                )));
            }
            out.extend_from_slice(styled.as_slice());
            k = k + 1;
        }
        proof {
            assert(seq_views(pieces@).skip(pieces@.len() as int) =~= Seq::<Seq<u8>>::empty());
            assert(out@ + Seq::<u8>::empty() =~= out@);
        }
        out
    }
}

/// How many leading blanks (spaces or tabs) the line carries.
fn trim_start_len(line: &Vec<u8>) -> (r: usize)
    ensures
        r as int == trim_len(line@),
{
    let n = line.len();
    let mut i: usize = 0;
    proof {
        assert(line@.skip(0) =~= line@);
    }
    while i < n
        invariant
            n == line@.len(),
            i <= n,
            trim_len(line@) == i + trim_len(line@.skip(i as int)),
        decreases n - i,
    {
        let b = line[i];
        if !(b == 32 || b == 9) {
            proof {
                assert(line@.skip(i as int)[0] == b);
            }
            return i;
        }
        proof {
            assert(line@.skip(i as int)[0] == b);
            assert(line@.skip(i as int).drop_first() =~= line@.skip(i as int + 1));
        }
        i = i + 1;
    }
    proof {
        assert(line@.skip(n as int) =~= Seq::<u8>::empty());
    }
    i
}

// ---------------------------------------------------------------------------
// Event formatting
// ---------------------------------------------------------------------------

/// The rendering of an envelope in a mode, for a given terminal-ness.
/// Compact and indented JSON are newline-terminated; YAML output is
/// prefixed with a dim separator and highlighted when interactive, and
/// with a plain `---` line otherwise.
pub open spec fn spec_format_event(
    env: Seq<(Seq<u8>, serde_json::Value)>,
    mode: OutputMode,
    is_tty: bool,
) -> Seq<u8> {
    match mode {
        OutputMode::Jsonl => json_compact(json_object_of(env)) + seq![10u8],
        OutputMode::PrettyJson => json_pretty(json_object_of(env)) + seq![10u8],
        OutputMode::PrettyYaml => {
            let y = yaml_text(json_object_of(env));
            if is_tty {
                ascii("\x1b[90m---\x1b[0m\n") + spec_highlight(y)
            } else {
                ascii("---\n") + y
            }
        },
    }
}

/// Formatting is a function of envelope, mode and terminal-ness alone: two
/// renderings of the same envelope in the same mode are byte-identical.
pub proof fn lemma_format_idempotent(
    env: Seq<(Seq<u8>, serde_json::Value)>,
    mode: OutputMode,
    is_tty: bool,
    first: Seq<u8>,
    second: Seq<u8>,
)
    requires
        first == spec_format_event(env, mode, is_tty),
        second == spec_format_event(env, mode, is_tty),
    ensures
        first == second,
{
}

/// Render an envelope in the configured output mode.  Compact output is a
/// single newline-terminated line with no embedded newline; piped YAML
/// output carries no terminal escape byte.
pub fn format_event(
    data: &EventEnvelope,
    mode: OutputMode,
    highlighter: &YamlHighlighter,
    is_tty: bool,
) -> (r: Vec<u8>)
    ensures
        r@ == spec_format_event(field_views(data.fields@), mode, is_tty),
        mode is Jsonl ==> r@.len() > 0 && r@[r@.len() - 1] == 10 && (forall|i: int|
            0 <= i < r@.len() - 1 ==> (#[trigger] r@[i]) != 10),
        mode is PrettyYaml && !is_tty ==> forall|i: int|
            0 <= i < r@.len() ==> (#[trigger] r@[i]) != 27,
{
    let obj = object_value(&data.fields);
    match mode {
        OutputMode::Jsonl => {
            match to_compact(&obj) {
                Some(mut line) => {
                    line.push(10);
                    proof {
                        assert(line@ =~= spec_format_event(
                            field_views(data.fields@),
                            mode,
                            is_tty,
                        ));
                    }
                    line
                },
                None => {
                    proof {
                        assert(false);
                    }
                    Vec::new()
                },
            }
        },
        OutputMode::PrettyJson => {
            match to_pretty(&obj) {
                Some(mut line) => {
                    line.push(10);
                    proof {
                        assert(line@ =~= spec_format_event(
                            field_views(data.fields@),
                            mode,
                            is_tty,
                        ));
                    }
                    line
                },
                None => {
                    proof {
                        assert(false);
                    }
                    Vec::new()
                },
            }
        },
        OutputMode::PrettyYaml => {
            match to_yaml(&obj) {
                Some(y) => {
                    if is_tty {
                        proof {
                            reveal_strlit("\x1b[90m---\x1b[0m\n");
                        }
                        let mut line = ascii_bytes("\x1b[90m---\x1b[0m\n");
                        let styled = highlighter.highlight(&y);
                        line.extend_from_slice(styled.as_slice());
                        proof {
                            assert(line@ =~= spec_format_event(
                                field_views(data.fields@),
                                mode,
                                is_tty,
                            ));
                        }
                        line
                    } else {
                        proof {
                            reveal_strlit("---\n");
                        }
                        let mut line = ascii_bytes("---\n");
                        line.extend_from_slice(y.as_slice());
                        proof {
                            assert(line@ =~= spec_format_event(
                                field_views(data.fields@),
                                mode,
                                is_tty,
                            ));
                            assert(ascii("---\n").len() == 4);
                            assert forall|i: int| 0 <= i < line@.len() implies (
                            #[trigger] line@[i]) != 27 by {
                                if i < 4 {
                                    assert(line@[i] == ascii("---\n")[i]);
                                } else {
                                    assert(line@[i] == y@[i - 4]);
                                }
                            }
                        }
                        line
                    }
                },
                None => {
                    proof {
                        assert(false);
                    }
                    Vec::new()
                },
            }
        },
    }
}

} // verus!
