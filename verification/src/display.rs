//! The display policy layered on top of the summarizer: summary text is
//! wrapped at a fixed column, and when the wrapped text runs past a fixed
//! number of lines the overflow is cut and the caller is told to append
//! its truncation marker.

use vstd::prelude::*;

use crate::summarize::views_of;

verus! {

/// The column summaries are wrapped at.
pub const DISPLAY_WIDTH: usize = 160;

/// How many wrapped lines of one summary are shown at most.
pub const MAX_SUMMARY_LINES: usize = 20;

/// The lines that wrapping `s` at `width` columns produces: a function
/// of the text and the width alone.
pub uninterp spec fn wrap_of(s: Seq<char>, width: usize) -> Seq<Seq<char>>;

/// Relies on `textwrap::wrap`: breaks a text into lines no wider than
/// `width`, deciding only by the text and the width.
#[verifier::external_body]
fn wrap_text(text: &str, width: usize) -> (r: Vec<String>)
    ensures
        views_of(r@) == wrap_of(text@, width),
{
    textwrap::wrap(text, &textwrap::Options::new(width))
        .iter()
        .map(|line| line.to_string())
        .collect()
}

/// Wraps one summary for display and cuts it to the line budget.  The
/// second component tells the caller that lines were cut, so that it can
/// append its truncation marker.
pub fn to_display_lines(text: &String) -> (r: (Vec<String>, bool))
    ensures
        ({
            let wrapped = wrap_of(text@, DISPLAY_WIDTH);
            &&& r.1 == (wrapped.len() > MAX_SUMMARY_LINES)
            &&& views_of(r.0@) == if wrapped.len() > MAX_SUMMARY_LINES {
                wrapped.take(MAX_SUMMARY_LINES as int)
            } else {
                wrapped
            }
        }),
{
    let mut lines = wrap_text(text.as_str(), DISPLAY_WIDTH);
    let mut truncated = false;
    if lines.len() > MAX_SUMMARY_LINES {
        lines.truncate(MAX_SUMMARY_LINES);
        truncated = true;
        proof {
            assert(views_of(lines@) =~= wrap_of(text@, DISPLAY_WIDTH).take(
                MAX_SUMMARY_LINES as int,
            ));
        }
    }
    (lines, truncated)
}

} // verus!

verus! {

/// One styled fragment of a packed line: its text and whether it is
/// primary content.
pub struct TextSpan {
    pub text: String,
    pub primary: bool,
}

/// The ghost form of a span: the text and the primary flag.
pub open spec fn span_rep(sp: TextSpan) -> (Seq<char>, bool) {
    (sp.text@, sp.primary)
}

/// The ghost form of one packed line.
pub open spec fn spans_rep(l: Seq<TextSpan>) -> Seq<(Seq<char>, bool)> {
    l.map_values(|sp: TextSpan| span_rep(sp))
}

/// The ghost form of a packed-line list.
pub open spec fn lines_rep(ls: Seq<Vec<TextSpan>>) -> Seq<Seq<(Seq<char>, bool)>> {
    ls.map_values(|l: Vec<TextSpan>| spans_rep(l@))
}

/// The text of the first `k` spans of a line, joined.
pub open spec fn line_text_upto(l: Seq<(Seq<char>, bool)>, k: int) -> Seq<char>
    decreases k,
{
    if k <= 0 {
        Seq::empty()
    } else {
        line_text_upto(l, k - 1) + l[k - 1].0
    }
}

/// The text of a packed line, all spans joined.
pub open spec fn line_text(l: Seq<(Seq<char>, bool)>) -> Seq<char> {
    line_text_upto(l, l.len() as int)
}

/// The joined text of the first `k` spans reads nothing past them.
proof fn lemma_line_text_upto_prefix(a: Seq<(Seq<char>, bool)>, b: Seq<(Seq<char>, bool)>, k: int)
    requires
        0 <= k <= a.len(),
        k <= b.len(),
        forall|m: int| 0 <= m < k ==> a[m] == b[m],
    ensures
        line_text_upto(a, k) == line_text_upto(b, k),
    decreases k,
{
    if k > 0 {
        lemma_line_text_upto_prefix(a, b, k - 1);
    }
}

/// Appending one span appends its text to the line.
proof fn lemma_line_text_push(l: Seq<(Seq<char>, bool)>, x: (Seq<char>, bool))
    ensures
        line_text(l.push(x)) == line_text(l) + x.0,
{
    lemma_line_text_upto_prefix(l.push(x), l, l.len() as int);
    assert(l.push(x)[l.len() as int] == x);
}

/// One packing step for a record's value, trimmed first.  A value wider
/// than the display width flushes the current line and becomes wrapped
/// lines of its own; one that overflows the current line starts a fresh
/// line; any other is appended behind one space.
pub open spec fn value_pack_step(
    done: Seq<Seq<(Seq<char>, bool)>>,
    cur: Seq<(Seq<char>, bool)>,
    v: crate::content::ContentValue,
) -> (Seq<Seq<(Seq<char>, bool)>>, Seq<(Seq<char>, bool)>) {
    let t = crate::text::trim_of(v.value@);
    let flag = v.meta.is_primary_content;
    let cur_len = crate::text::blen(line_text(cur));
    if crate::text::blen(t) > DISPLAY_WIDTH {
        let flushed = if cur_len > 0 {
            done.push(cur)
        } else {
            done
        };
        let emptied = if cur_len > 0 {
            Seq::empty()
        } else {
            cur
        };
        (flushed + wrap_of(t, DISPLAY_WIDTH).map_values(|seg: Seq<char>| seq![(seg, flag)]), emptied)
    } else if crate::text::blen(t) + cur_len > DISPLAY_WIDTH {
        (done.push(cur), seq![(t, flag)])
    } else {
        (done, cur.push((seq![' '] + t, flag)))
    }
}

/// The packing state after the first `k` values.
pub open spec fn values_pack_upto(vals: Seq<crate::content::ContentValue>, k: int) -> (
    Seq<Seq<(Seq<char>, bool)>>,
    Seq<(Seq<char>, bool)>,
)
    decreases k,
{
    if k <= 0 {
        (Seq::empty(), Seq::empty())
    } else {
        let p = values_pack_upto(vals, k - 1);
        value_pack_step(p.0, p.1, vals[k - 1])
    }
}

/// The packed lines of a record's values: the fold over all values, and
/// the last line when its text is not empty.
pub open spec fn packed_lines(vals: Seq<crate::content::ContentValue>) -> Seq<
    Seq<(Seq<char>, bool)>,
> {
    let p = values_pack_upto(vals, vals.len() as int);
    if crate::text::blen(line_text(p.1)) > 0 {
        p.0.push(p.1)
    } else {
        p.0
    }
}

/// Packs a record's values, in the given order, into display-width
/// lines of styled spans: each value is trimmed; a value wider than the
/// display width is wrapped onto lines of its own; the rest flow left
/// to right, separated by one space.
pub fn pack_content_lines(values: &Vec<crate::content::ContentValue>) -> (r: Vec<Vec<TextSpan>>)
    ensures
        lines_rep(r@) == packed_lines(values@),
{
    let mut lines: Vec<Vec<TextSpan>> = Vec::new();
    let mut cur: Vec<TextSpan> = Vec::new();
    let mut cur_text = String::new();
    let mut i: usize = 0;
    while i < values.len()
        invariant
            0 <= i <= values@.len(),
            lines_rep(lines@) == values_pack_upto(values@, i as int).0,
            spans_rep(cur@) == values_pack_upto(values@, i as int).1,
            cur_text@ == line_text(spans_rep(cur@)),
        decreases values@.len() - i,
    {
        let v = &values[i];
        let t = crate::text::trim_str(&v.value);
        let tl = t.as_str().len();
        let cur_len = cur_text.as_str().len();
        proof {
            assert(tl as int == crate::text::blen(t@));
            assert(cur_len as int == crate::text::blen(line_text(spans_rep(cur@))));
        }
        let ghost st_done = values_pack_upto(values@, i as int).0;
        let ghost st_cur = values_pack_upto(values@, i as int).1;
        if tl > DISPLAY_WIDTH {
            let ghost flushed = if cur_len > 0 {
                st_done.push(st_cur)
            } else {
                st_done
            };
            if cur_len > 0 {
                let ghost lr = lines_rep(lines@);
                lines.push(cur);
                cur = Vec::new();
                cur_text = String::new();
                proof {
                    assert(lines_rep(lines@) =~= lr.push(st_cur));
                    assert(spans_rep(cur@) =~= Seq::<(Seq<char>, bool)>::empty());
                }
            }
            let wrapped = wrap_text(t.as_str(), DISPLAY_WIDTH);
            let ghost target = wrap_of(t@, DISPLAY_WIDTH).map_values(
                |seg: Seq<char>| seq![(seg, v.meta.is_primary_content)],
            );
            proof {
                assert(lines_rep(lines@) + target.take(0) =~= lines_rep(lines@));
            }
            let mut w: usize = 0;
            while w < wrapped.len()
                invariant
                    0 <= w <= wrapped@.len(),
                    views_of(wrapped@) == wrap_of(t@, DISPLAY_WIDTH),
                    target == wrap_of(t@, DISPLAY_WIDTH).map_values(
                        |seg: Seq<char>| seq![(seg, v.meta.is_primary_content)],
                    ),
                    lines_rep(lines@) == flushed + target.take(w as int),
                decreases wrapped@.len() - w,
            {
                let mut single: Vec<TextSpan> = Vec::new();
                single.push(
                    TextSpan { text: wrapped[w].clone(), primary: v.meta.is_primary_content },
                );
                let ghost lr = lines_rep(lines@);
                lines.push(single);
                proof {
                    assert(spans_rep(single@) =~= seq![
                        (wrapped@[w as int]@, v.meta.is_primary_content),
                    ]);
                    assert(target[w as int] == seq![
                        (wrapped@[w as int]@, v.meta.is_primary_content),
                    ]);
                    assert(lines_rep(lines@) =~= lr.push(spans_rep(single@)));
                    assert(target.take(w as int + 1) =~= target.take(w as int).push(
                        target[w as int],
                    ));
                    assert(lines_rep(lines@) =~= flushed + target.take(w as int + 1));
                }
                w = w + 1;
            }
            proof {
                assert(target.take(target.len() as int) =~= target);
                assert(values_pack_upto(values@, i as int + 1).0 == flushed + target);
                assert(values_pack_upto(values@, i as int + 1).1 == spans_rep(cur@));
                assert(cur_text@ == line_text(spans_rep(cur@)));
            }
        } else if (tl as u128) + (cur_len as u128) > (DISPLAY_WIDTH as u128) {
            let ghost lr = lines_rep(lines@);
            lines.push(cur);
            cur = Vec::new();
            cur_text = t.clone();
            cur.push(TextSpan { text: t, primary: v.meta.is_primary_content });
            proof {
                assert(lines_rep(lines@) =~= lr.push(st_cur));
                assert(spans_rep(cur@) =~= seq![(t@, v.meta.is_primary_content)]);
                assert(spans_rep(cur@) == values_pack_upto(values@, i as int + 1).1);
                assert(line_text_upto(spans_rep(cur@), 0) == Seq::<char>::empty());
                assert(cur_text@ =~= line_text(spans_rep(cur@)));
            }
        } else {
            let mut sp = String::from_str(" ");
            sp.append(t.as_str());
            proof {
                reveal_strlit(" ");
                assert(sp@ =~= seq![' '] + t@);
            }
            cur_text.append(sp.as_str());
            cur.push(TextSpan { text: sp, primary: v.meta.is_primary_content });
            proof {
                assert(spans_rep(cur@) =~= st_cur.push((seq![' '] + t@,
                v.meta.is_primary_content)));
                assert(spans_rep(cur@) == values_pack_upto(values@, i as int + 1).1);
                lemma_line_text_push(st_cur, (seq![' '] + t@, v.meta.is_primary_content));
                assert(cur_text@ =~= line_text(spans_rep(cur@)));
                assert(values_pack_upto(values@, i as int + 1).0 == lines_rep(lines@));
            }
        }
        i = i + 1;
    }
    let cur_len = cur_text.as_str().len();
    proof {
        assert(cur_len as int == crate::text::blen(line_text(spans_rep(cur@))));
    }
    if cur_len > 0 {
        let ghost lr = lines_rep(lines@);
        let ghost p = values_pack_upto(values@, values@.len() as int);
        lines.push(cur);
        proof {
            assert(lines_rep(lines@) =~= lr.push(p.1));
        }
    }
    lines
}

} // verus!
