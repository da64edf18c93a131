//! The text widget's layout pass: greedy word wrap bounded by the maximum
//! width of the incoming constraints.
//!
//! The input splits on spaces and embedded newlines into words. A word whose
//! accumulated width exceeds the maximum width mid-word is broken inside the
//! word (an overflow escape valve); a whole word that does not fit on the
//! remaining line moves to a new line, unless that would exceed the vertical
//! budget, in which case the remaining text is dropped and the layout is
//! reported truncated. A space separator adds its advance to the running
//! line width; a newline separator adds nothing. Lines committed before a
//! truncation stay. The line height is `font_size * 3 / 2`.

use vstd::prelude::*;

use crate::error::UiError;
use crate::scalar;
use crate::scalar::{sat_add, spec_max};
use crate::text_style::TextStyleComputed;
use crate::widgets::{BoxConstraints, Size};

verus! {

/// One laid-out character: its absolute position and extent, in layout
/// units, together with the character it renders.
#[derive(Clone, Copy, Debug, PartialEq, Eq, Structural)]
pub struct LetterRect {
    pub ch: char,
    pub x: i64,
    pub y: i64,
    pub w: i64,
    pub h: i64,
}

/// Word separators: space and newline.
pub open spec fn spec_is_sep(ch: char) -> bool {
    ch == ' ' || ch == '\n'
}

/// The index of the first separator at or after `i` (the end of the word
/// starting at `i`).
pub open spec fn spec_word_end(chars: Seq<char>, i: int) -> int
    decreases chars.len() - i,
{
    if 0 <= i < chars.len() {
        if spec_is_sep(chars[i]) {
            i
        } else {
            spec_word_end(chars, i + 1)
        }
    } else if i < 0 {
        0
    } else {
        chars.len() as int
    }
}

/// The end of a word lies between its start and the end of the input, and
/// everything before it is not a separator.
pub proof fn lemma_word_end_bounds(chars: Seq<char>, i: int)
    requires
        0 <= i <= chars.len(),
    ensures
        i <= spec_word_end(chars, i) <= chars.len(),
        forall|k: int| i <= k < spec_word_end(chars, i) ==> !spec_is_sep(chars[k]),
        spec_word_end(chars, i) < chars.len() ==> spec_is_sep(chars[spec_word_end(chars, i)]),
    decreases chars.len() - i,
{
    if i < chars.len() && !spec_is_sep(chars[i]) {
        lemma_word_end_bounds(chars, i + 1);
    }
}

/// The running state of the wrap: the width of the current line, the top of
/// the current line, the widest completed line, the committed letters, and
/// whether text was dropped.
pub struct TextFlowState {
    pub line_width: int,
    pub y: int,
    pub mlw: int,
    pub letters: Seq<LetterRect>,
    pub truncated: bool,
}

/// The state while walking one word: the flow state, the letters of the
/// current fragment (positioned relative to the fragment start), and the
/// fragment's accumulated width and height.
pub struct WordState {
    pub flow: TextFlowState,
    pub frag: Seq<LetterRect>,
    pub word_width: int,
    pub word_height: int,
}

/// Commit a fragment: append its letters, shifted to the absolute base
/// `(bx, by)`, to the committed letters.
pub open spec fn spec_commit(
    letters: Seq<LetterRect>,
    frag: Seq<LetterRect>,
    bx: int,
    by: int,
) -> Seq<LetterRect> {
    letters + frag.map_values(
        |l: LetterRect|
            LetterRect {
                ch: l.ch,
                x: sat_add(l.x as int, bx) as i64,
                y: sat_add(l.y as int, by) as i64,
                w: l.w,
                h: l.h,
            },
    )
}

/// Process one character of a word: if the fragment has already overrun the
/// maximum width, commit it to the current line and break inside the word;
/// then append the character to the fragment and advance the pen.
pub open spec fn spec_word_step(
    computed: TextStyleComputed,
    maxw: int,
    lh: int,
    ws: WordState,
    ch: char,
) -> Result<WordState, UiError> {
    let m_opt = TextStyleComputed::spec_metrics_of(computed.spec_metrics(), ch);
    let r_opt = computed.spec_rect_of(ch);
    if m_opt is None || r_opt is None {
        Err(UiError::UnknownHandle)
    } else {
        let m = m_opt->0;
        let rect = r_opt->0;
        let ws1 = if ws.word_width > maxw {
            WordState {
                flow: TextFlowState {
                    line_width: 0,
                    y: sat_add(ws.flow.y, lh),
                    mlw: spec_max(ws.flow.mlw, ws.flow.line_width),
                    letters: spec_commit(ws.flow.letters, ws.frag, ws.flow.line_width, ws.flow.y),
                    truncated: ws.flow.truncated,
                },
                frag: Seq::empty(),
                word_width: 0,
                word_height: 0,
            }
        } else {
            ws
        };
        Ok(
            WordState {
                flow: ws1.flow,
                frag: ws1.frag.push(
                    LetterRect {
                        ch,
                        x: ws1.word_width as i64,
                        y: 0,
                        w: rect.w as i64,
                        h: rect.h as i64,
                    },
                ),
                word_width: sat_add(ws1.word_width, m.advance_width as int),
                word_height: spec_max(ws1.word_height, m.advance_height as int),
            },
        )
    }
}

/// Walk the first `k` characters of a word.
pub open spec fn spec_word_fold(
    computed: TextStyleComputed,
    maxw: int,
    lh: int,
    word: Seq<char>,
    k: int,
    ws: WordState,
) -> Result<WordState, UiError>
    decreases k,
{
    if 0 < k <= word.len() {
        match spec_word_fold(computed, maxw, lh, word, k - 1, ws) {
            Ok(prev) => spec_word_step(computed, maxw, lh, prev, word[k - 1]),
            Err(e) => Err(e),
        }
    } else {
        Ok(ws)
    }
}

/// Place a finished word: on the current line if it fits, on a new line if
/// the vertical budget allows, and nowhere (truncating the layout) if not.
pub open spec fn spec_word_finish(c: BoxConstraints, lh: int, ws: WordState) -> TextFlowState {
    let f = ws.flow;
    if sat_add(ws.word_width, f.line_width) > c.max.width as int {
        if sat_add(sat_add(ws.word_height, lh), f.y) <= c.max.height as int {
            let y2 = sat_add(f.y, lh);
            TextFlowState {
                line_width: ws.word_width,
                y: y2,
                mlw: spec_max(f.mlw, f.line_width),
                letters: spec_commit(f.letters, ws.frag, 0, y2),
                truncated: f.truncated,
            }
        } else {
            TextFlowState { truncated: true, ..f }
        }
    } else {
        TextFlowState {
            line_width: sat_add(f.line_width, ws.word_width),
            letters: spec_commit(f.letters, ws.frag, f.line_width, f.y),
            ..f
        }
    }
}

/// Wrap the words of `chars` from position `i` on, starting from flow state
/// `f`.
pub open spec fn spec_flow(
    computed: TextStyleComputed,
    c: BoxConstraints,
    lh: int,
    chars: Seq<char>,
    i: int,
    f: TextFlowState,
) -> Result<TextFlowState, UiError>
    decreases chars.len() - i,
    via spec_flow_dec
{
    if 0 <= i < chars.len() {
        let j = spec_word_end(chars, i);
        let ws0 = WordState { flow: f, frag: Seq::empty(), word_width: 0, word_height: 0 };
        match spec_word_fold(computed, c.max.width as int, lh, chars.subrange(i, j), j - i, ws0) {
            Err(e) => Err(e),
            Ok(ws) => {
                let f2 = spec_word_finish(c, lh, ws);
                if f2.truncated || j >= chars.len() {
                    Ok(f2)
                } else if chars[j] == ' ' {
                    match TextStyleComputed::spec_metrics_of(computed.spec_metrics(), ' ') {
                        Some(m) => spec_flow(
                            computed,
                            c,
                            lh,
                            chars,
                            j + 1,
                            TextFlowState {
                                line_width: sat_add(f2.line_width, m.advance_width as int),
                                ..f2
                            },
                        ),
                        None => Err(UiError::UnknownHandle),
                    }
                } else {
                    spec_flow(computed, c, lh, chars, j + 1, f2)
                }
            },
        }
    } else {
        Ok(f)
    }
}

#[via_fn]
proof fn spec_flow_dec(
    computed: TextStyleComputed,
    c: BoxConstraints,
    lh: int,
    chars: Seq<char>,
    i: int,
    f: TextFlowState,
) {
    if 0 <= i < chars.len() {
        lemma_word_end_bounds(chars, i);
    }
}

/// The result of laying out a text run.
pub struct TextModel {
    pub size: Size,
    pub letters: Seq<LetterRect>,
    pub truncated: bool,
}

/// Lay out a text run: wrap its words, then report the widest line as the
/// width and the bottom of the last occupied line as the height.
pub open spec fn spec_text_resolve(
    chars: Seq<char>,
    font_size: u32,
    computed: TextStyleComputed,
    c: BoxConstraints,
) -> Result<TextModel, UiError> {
    let lh = font_size as int * 3 / 2;
    let f0 = TextFlowState { line_width: 0, y: 0, mlw: 0, letters: Seq::empty(), truncated: false };
    match spec_flow(computed, c, lh, chars, 0, f0) {
        Ok(f) => Ok(
            TextModel {
                size: Size {
                    width: spec_max(f.mlw, f.line_width) as i64,
                    height: (if f.letters.len() == 0 {
                        0
                    } else {
                        sat_add(f.y, lh)
                    }) as i64,
                },
                letters: f.letters,
                truncated: f.truncated,
            },
        ),
        Err(e) => Err(e),
    }
}

} // verus!

verus! {

/// A failed character lookup fails the whole word walk.
proof fn lemma_word_fold_err(
    computed: TextStyleComputed,
    maxw: int,
    lh: int,
    word: Seq<char>,
    m: int,
    k: int,
    ws0: WordState,
)
    requires
        0 <= m <= k <= word.len(),
        spec_word_fold(computed, maxw, lh, word, m, ws0) is Err,
    ensures
        spec_word_fold(computed, maxw, lh, word, k, ws0) == spec_word_fold(
            computed,
            maxw,
            lh,
            word,
            m,
            ws0,
        ),
    decreases k,
{
    if k > m {
        lemma_word_fold_err(computed, maxw, lh, word, m, k - 1, ws0);
    }
}

/// The laid-out letters of a text run, handed from its measure pass to its
/// paint pass, with the truncation signal.
pub struct TextCache {
    pub letters: Vec<LetterRect>,
    pub truncated: bool,
}

/// Whether `ch` separates words.
fn is_sep(ch: char) -> (r: bool)
    ensures
        r == spec_is_sep(ch),
{
    ch == ' ' || ch == '\n'
}

/// Append the fragment's letters, shifted to base `(bx, by)`.
fn commit_frag(letters: &mut Vec<LetterRect>, frag: &Vec<LetterRect>, bx: i64, by: i64)
    ensures
        final(letters)@ == spec_commit(old(letters)@, frag@, bx as int, by as int),
{
    let ghost target = spec_commit(old(letters)@, frag@, bx as int, by as int);
    let mut k: usize = 0;
    while k < frag.len()
        invariant
            k <= frag@.len(),
            target == spec_commit(old(letters)@, frag@, bx as int, by as int),
            letters@ =~= target.take(old(letters)@.len() + k as int),
        decreases frag@.len() - k,
    {
        let l: LetterRect = frag[k];
        letters.push(
            LetterRect { ch: l.ch, x: scalar::adds(l.x, bx), y: scalar::adds(l.y, by), w: l.w, h: l.h },
        );
        proof {
            assert(letters@ =~= target.take(old(letters)@.len() + k as int + 1));
        }
        k = k + 1;
    }
    proof {
        assert(letters@ =~= target);
    }
}

/// Lay out a text run under the incoming constraints, producing its size,
/// the laid-out letters, and the truncation signal. Fails with
/// [`UiError::UnknownHandle`] when a character (or the space separator) has
/// no metrics or no atlas rectangle in the computed style.
pub fn text_resolve(
    chars: &Vec<char>,
    font_size: u32,
    computed: &TextStyleComputed,
    c: &BoxConstraints,
) -> (r: Result<(Size, TextCache), UiError>)
    ensures
        ({
            let m = spec_text_resolve(chars@, font_size, *computed, *c);
            match r {
                Ok((size, cache)) => m matches Ok(tm) && tm.size == size && tm.letters
                    == cache.letters@ && tm.truncated == cache.truncated,
                Err(e) => m == Err::<TextModel, UiError>(e),
            }
        }),
{
    let lh: i64 = ((font_size as u64 * 3) / 2) as i64;
    let ghost f0 = TextFlowState {
        line_width: 0,
        y: 0,
        mlw: 0,
        letters: Seq::empty(),
        truncated: false,
    };
    let mut line_width: i64 = 0;
    let mut y: i64 = 0;
    let mut mlw: i64 = 0;
    let mut letters: Vec<LetterRect> = Vec::new();
    let mut truncated: bool = false;
    let mut i: usize = 0;
    proof {
        assert(letters@ =~= f0.letters);
    }
    while i < chars.len()
        invariant
            i <= chars@.len(),
            truncated ==> i == chars@.len(),
            lh == font_size as int * 3 / 2,
            f0 == (TextFlowState {
                line_width: 0,
                y: 0,
                mlw: 0,
                letters: Seq::<LetterRect>::empty(),
                truncated: false,
            }),
            ({
                let cur = TextFlowState {
                    line_width: line_width as int,
                    y: y as int,
                    mlw: mlw as int,
                    letters: letters@,
                    truncated,
                };
                if truncated {
                    spec_flow(*computed, *c, lh as int, chars@, 0, f0) == Ok::<
                        TextFlowState,
                        UiError,
                    >(cur)
                } else {
                    spec_flow(*computed, *c, lh as int, chars@, 0, f0) == spec_flow(
                        *computed,
                        *c,
                        lh as int,
                        chars@,
                        i as int,
                        cur,
                    )
                }
            }),
        decreases chars@.len() - i,
    {
        let ghost i0 = i as int;
        let ghost f_in = TextFlowState {
            line_width: line_width as int,
            y: y as int,
            mlw: mlw as int,
            letters: letters@,
            truncated,
        };
        // find the end of the word starting at `i`
        let mut j: usize = i;
        while j < chars.len() && !is_sep(chars[j])
            invariant
                i <= j <= chars@.len(),
                spec_word_end(chars@, i as int) == spec_word_end(chars@, j as int),
            decreases chars@.len() - j,
        {
            j = j + 1;
        }
        proof {
            assert(spec_word_end(chars@, i as int) == j as int);
        }
        let ghost word = chars@.subrange(i as int, j as int);
        let ghost maxw = c.max.width as int;
        let ghost ws0 = WordState { flow: f_in, frag: Seq::empty(), word_width: 0, word_height: 0 };
        // walk the word's characters
        let mut frag: Vec<LetterRect> = Vec::new();
        let mut word_width: i64 = 0;
        let mut word_height: i64 = 0;
        let mut k: usize = i;
        proof {
            assert(frag@ =~= ws0.frag);
        }
        while k < j
            invariant
                i <= k <= j <= chars@.len(),
                i as int == i0,
                i0 < chars@.len(),
                j as int == spec_word_end(chars@, i0),
                lh == font_size as int * 3 / 2,
                f0 == (TextFlowState {
                    line_width: 0,
                    y: 0,
                    mlw: 0,
                    letters: Seq::<LetterRect>::empty(),
                    truncated: false,
                }),
                spec_flow(*computed, *c, lh as int, chars@, 0, f0) == spec_flow(
                    *computed,
                    *c,
                    lh as int,
                    chars@,
                    i0,
                    f_in,
                ),
                word == chars@.subrange(i as int, j as int),
                maxw == c.max.width as int,
                ws0 == (WordState {
                    flow: f_in,
                    frag: Seq::<LetterRect>::empty(),
                    word_width: 0,
                    word_height: 0,
                }),
                spec_word_fold(*computed, maxw, lh as int, word, k - i, ws0) == Ok::<
                    WordState,
                    UiError,
                >(
                    WordState {
                        flow: TextFlowState {
                            line_width: line_width as int,
                            y: y as int,
                            mlw: mlw as int,
                            letters: letters@,
                            truncated,
                        },
                        frag: frag@,
                        word_width: word_width as int,
                        word_height: word_height as int,
                    },
                ),
            decreases j - k,
        {
            let ghost ws_prev = WordState {
                flow: TextFlowState {
                    line_width: line_width as int,
                    y: y as int,
                    mlw: mlw as int,
                    letters: letters@,
                    truncated,
                },
                frag: frag@,
                word_width: word_width as int,
                word_height: word_height as int,
            };
            let ch: char = chars[k];
            proof {
                assert(word[k - i] == ch);
            }
            let m_opt = computed.get_char_metrics(ch);
            let r_opt = computed.get_char_rect(ch);
            if m_opt.is_none() || r_opt.is_none() {
                proof {
                    assert(spec_word_step(*computed, maxw, lh as int, ws_prev, ch) == Err::<
                        WordState,
                        UiError,
                    >(UiError::UnknownHandle));
                    assert(spec_word_fold(*computed, maxw, lh as int, word, k - i + 1, ws0) == Err::<
                        WordState,
                        UiError,
                    >(UiError::UnknownHandle));
                    lemma_word_fold_err(
                        *computed,
                        maxw,
                        lh as int,
                        word,
                        k - i + 1,
                        word.len() as int,
                        ws0,
                    );
                }
                return Err(UiError::UnknownHandle);
            }
            let m = m_opt.unwrap();
            let rect = r_opt.unwrap();
            if word_width > c.max.width {
                commit_frag(&mut letters, &frag, line_width, y);
                y = scalar::adds(y, lh);
                mlw = scalar::max(mlw, line_width);
                line_width = 0;
                frag = Vec::new();
                word_width = 0;
                word_height = 0;
                proof {
                    assert(frag@ =~= Seq::<LetterRect>::empty());
                }
            }
            frag.push(
                LetterRect { ch, x: word_width, y: 0, w: rect.w as i64, h: rect.h as i64 },
            );
            word_width = scalar::adds(word_width, m.advance_width as i64);
            word_height = scalar::max(word_height, m.advance_height as i64);
            proof {
                let ws_next = WordState {
                    flow: TextFlowState {
                        line_width: line_width as int,
                        y: y as int,
                        mlw: mlw as int,
                        letters: letters@,
                        truncated,
                    },
                    frag: frag@,
                    word_width: word_width as int,
                    word_height: word_height as int,
                };
                let stepped = spec_word_step(*computed, maxw, lh as int, ws_prev, ch);
                assert(stepped matches Ok(sw) && sw.flow.letters =~= ws_next.flow.letters
                    && sw.frag =~= ws_next.frag);
                assert(stepped == Ok::<WordState, UiError>(ws_next));
            }
            k = k + 1;
        }
        // place the finished word
        let ghost ws_final = WordState {
            flow: TextFlowState {
                line_width: line_width as int,
                y: y as int,
                mlw: mlw as int,
                letters: letters@,
                truncated,
            },
            frag: frag@,
            word_width: word_width as int,
            word_height: word_height as int,
        };
        let ghost f2_spec = spec_word_finish(*c, lh as int, ws_final);
        if scalar::adds(word_width, line_width) > c.max.width {
            if scalar::adds(scalar::adds(word_height, lh), y) <= c.max.height {
                y = scalar::adds(y, lh);
                mlw = scalar::max(mlw, line_width);
                commit_frag(&mut letters, &frag, 0, y);
                line_width = word_width;
            } else {
                truncated = true;
            }
        } else {
            commit_frag(&mut letters, &frag, line_width, y);
            line_width = scalar::adds(line_width, word_width);
        }
        proof {
            let f2_exec = TextFlowState {
                line_width: line_width as int,
                y: y as int,
                mlw: mlw as int,
                letters: letters@,
                truncated,
            };
            assert(f2_spec.letters =~= f2_exec.letters);
            assert(f2_spec == f2_exec);
        }
        proof {
            assert(spec_word_fold(*computed, maxw, lh as int, word, j - i0, ws0) == Ok::<
                WordState,
                UiError,
            >(ws_final));
        }
        if truncated {
            i = chars.len();
            proof {
                let cur = TextFlowState {
                    line_width: line_width as int,
                    y: y as int,
                    mlw: mlw as int,
                    letters: letters@,
                    truncated,
                };
                assert(cur.letters =~= f2_spec.letters);
                assert(cur == f2_spec);
                assert(spec_flow(*computed, *c, lh as int, chars@, i0, f_in) == Ok::<
                    TextFlowState,
                    UiError,
                >(f2_spec));
            }
        } else if j >= chars.len() {
            i = j;
            proof {
                let cur = TextFlowState {
                    line_width: line_width as int,
                    y: y as int,
                    mlw: mlw as int,
                    letters: letters@,
                    truncated,
                };
                assert(cur.letters =~= f2_spec.letters);
                assert(cur == f2_spec);
                assert(spec_flow(*computed, *c, lh as int, chars@, i0, f_in) == Ok::<
                    TextFlowState,
                    UiError,
                >(f2_spec));
                assert(spec_flow(*computed, *c, lh as int, chars@, i as int, cur) == Ok::<
                    TextFlowState,
                    UiError,
                >(cur));
            }
        } else {
            if chars[j] == ' ' {
                match computed.get_char_metrics(' ') {
                    Some(m) => {
                        line_width = scalar::adds(line_width, m.advance_width as i64);
                    },
                    None => {
                        proof {
                            assert(spec_flow(*computed, *c, lh as int, chars@, i0, f_in) == Err::<
                                TextFlowState,
                                UiError,
                            >(UiError::UnknownHandle));
                        }
                        return Err(UiError::UnknownHandle);
                    },
                }
            }
            i = j + 1;
            proof {
                let cur = TextFlowState {
                    line_width: line_width as int,
                    y: y as int,
                    mlw: mlw as int,
                    letters: letters@,
                    truncated,
                };
                assert(cur.letters =~= f2_spec.letters);
                if chars@[j as int] == ' ' {
                    let m = TextStyleComputed::spec_metrics_of(computed.spec_metrics(), ' ')->0;
                    assert(cur == (TextFlowState {
                        line_width: sat_add(f2_spec.line_width, m.advance_width as int),
                        ..f2_spec
                    }));
                    assert(spec_flow(*computed, *c, lh as int, chars@, i0, f_in) == spec_flow(
                        *computed,
                        *c,
                        lh as int,
                        chars@,
                        j + 1,
                        cur,
                    ));
                } else {
                    assert(cur == f2_spec);
                    assert(spec_flow(*computed, *c, lh as int, chars@, i0, f_in) == spec_flow(
                        *computed,
                        *c,
                        lh as int,
                        chars@,
                        j + 1,
                        cur,
                    ));
                }
            }
        }
    }
    proof {
        let cur = TextFlowState {
            line_width: line_width as int,
            y: y as int,
            mlw: mlw as int,
            letters: letters@,
            truncated,
        };
        if !truncated {
            assert(spec_flow(*computed, *c, lh as int, chars@, i as int, cur) == Ok::<
                TextFlowState,
                UiError,
            >(cur));
        }
        assert(spec_flow(*computed, *c, lh as int, chars@, 0, f0) == Ok::<TextFlowState, UiError>(
            cur,
        ));
    }
    let size = Size {
        width: scalar::max(mlw, line_width),
        height: if letters.len() == 0 {
            0
        } else {
            scalar::adds(y, lh)
        },
    };
    Ok((size, TextCache { letters, truncated }))
}

} // verus!

verus! {

/// The flow state stays non-negative through one word.
proof fn lemma_word_fold_nonneg(
    computed: TextStyleComputed,
    maxw: int,
    lh: int,
    word: Seq<char>,
    k: int,
    ws0: WordState,
)
    requires
        0 <= lh,
        0 <= ws0.flow.line_width <= i64::MAX as int,
        0 <= ws0.flow.y <= i64::MAX as int,
        0 <= ws0.flow.mlw <= i64::MAX as int,
        0 <= ws0.word_width <= i64::MAX as int,
        0 <= ws0.word_height <= i64::MAX as int,
    ensures
        spec_word_fold(computed, maxw, lh, word, k, ws0) matches Ok(ws) ==> 0 <= ws.flow.line_width
            <= i64::MAX as int && 0 <= ws.flow.y <= i64::MAX as int && 0 <= ws.flow.mlw
            <= i64::MAX as int && 0 <= ws.word_width <= i64::MAX as int && 0 <= ws.word_height
            <= i64::MAX as int,
    decreases k,
{
    if 0 < k <= word.len() {
        lemma_word_fold_nonneg(computed, maxw, lh, word, k - 1, ws0);
    }
}

/// The flow state stays non-negative across the whole wrap.
proof fn lemma_flow_nonneg(
    computed: TextStyleComputed,
    c: BoxConstraints,
    lh: int,
    chars: Seq<char>,
    i: int,
    f: TextFlowState,
)
    requires
        0 <= lh,
        0 <= f.line_width <= i64::MAX as int,
        0 <= f.y <= i64::MAX as int,
        0 <= f.mlw <= i64::MAX as int,
    ensures
        spec_flow(computed, c, lh, chars, i, f) matches Ok(g) ==> 0 <= g.line_width
            <= i64::MAX as int && 0 <= g.y <= i64::MAX as int && 0 <= g.mlw <= i64::MAX as int,
    decreases chars.len() - i,
{
    if 0 <= i < chars.len() {
        let j = spec_word_end(chars, i);
        lemma_word_end_bounds(chars, i);
        let ws0 = WordState { flow: f, frag: Seq::empty(), word_width: 0, word_height: 0 };
        let folded = spec_word_fold(computed, c.max.width as int, lh, chars.subrange(i, j), j - i, ws0);
        lemma_word_fold_nonneg(computed, c.max.width as int, lh, chars.subrange(i, j), j - i, ws0);
        if folded is Ok {
            let ws = folded->Ok_0;
            let f2 = spec_word_finish(c, lh, ws);
            if !(f2.truncated || j >= chars.len()) {
                if chars[j] == ' ' {
                    match TextStyleComputed::spec_metrics_of(computed.spec_metrics(), ' ') {
                        Some(m) => {
                            lemma_flow_nonneg(
                                computed,
                                c,
                                lh,
                                chars,
                                j + 1,
                                TextFlowState {
                                    line_width: sat_add(f2.line_width, m.advance_width as int),
                                    ..f2
                                },
                            );
                        },
                        None => {},
                    }
                } else {
                    lemma_flow_nonneg(computed, c, lh, chars, j + 1, f2);
                }
            }
        }
    }
}

/// A laid-out text run has a valid (non-negative) size.
pub proof fn lemma_text_size_valid(
    chars: Seq<char>,
    font_size: u32,
    computed: TextStyleComputed,
    c: BoxConstraints,
)
    ensures
        spec_text_resolve(chars, font_size, computed, c) matches Ok(tm) ==> tm.size.valid(),
{
    let prod = font_size as int * 3;
    let lh = prod / 2;
    let f0 = TextFlowState { line_width: 0, y: 0, mlw: 0, letters: Seq::empty(), truncated: false };
    assert(0 <= prod);
    vstd::arithmetic::div_mod::lemma_div_pos_is_pos(prod, 2);
    lemma_flow_nonneg(computed, c, lh, chars, 0, f0);
}

} // verus!

verus! {

use crate::text_style::TextStyle;

/// A text widget: a string and the style to draw it in.
pub struct Text {
    pub value: String,
    pub style: TextStyle,
}

impl Text {
    /// A text run in the default style.
    pub fn new(value: String) -> (r: Text)
        ensures
            r.value@ == value@,
            r.style.color == crate::widgets::Color::RGBA(0, 0, 0, 255),
            r.style.font_family@ == "Roboto"@,
            r.style.font_size == 20,
    {
        Text { value, style: TextStyle::default() }
    }

    /// Replace the style.
    pub fn with_style(self, style: TextStyle) -> (r: Text)
        ensures
            r.value@ == self.value@,
            r.style == style,
    {
        Text { style, ..self }
    }
}

/// The characters of a string slice, in order.
pub fn string_chars(s: &str) -> (r: Vec<char>)
    ensures
        r@ == s@,
{
    let n: usize = s.unicode_len();
    let mut r: Vec<char> = Vec::new();
    let mut i: usize = 0;
    while i < n
        invariant
            i <= n,
            n == s@.len(),
            r@ =~= s@.take(i as int),
        decreases n - i,
    {
        r.push(s.get_char(i));
        proof {
            assert(r@ =~= s@.take(i + 1));
        }
        i = i + 1;
    }
    proof {
        assert(r@ =~= s@);
    }
    r
}

} // verus!
