//! The plain-text list pager: turns data records into screen-width text
//! lines and serves one page of them at a time.

use vstd::prelude::*;
use vstd::string::StringExecFns;

use crate::store::InputField;
use crate::text::blen;

verus! {

/// One rendered line: its text, an identifier, and the key/value pairs
/// the text was built from.
pub struct Line {
    pub id: String,
    pub text: String,
    pub data: Vec<InputField>,
}

/// `a` carries the same text, id and data as `b`.
pub open spec fn line_like(a: Line, b: Line) -> bool {
    &&& a.id == b.id
    &&& a.text == b.text
    &&& a.data@ == b.data@
}

/// Copies one line, field by field.
fn clone_line(l: &Line) -> (r: Line)
    ensures
        line_like(r, *l),
{
    let mut data: Vec<InputField> = Vec::new();
    let mut i: usize = 0;
    while i < l.data.len()
        invariant
            0 <= i <= l.data@.len(),
            data@ =~= l.data@.subrange(0, i as int),
        decreases l.data@.len() - i,
    {
        data.push(l.data[i].clone());
        i = i + 1;
    }
    proof {
        assert(l.data@.subrange(0, l.data@.len() as int) =~= l.data@);
    }
    Line { id: l.id.clone(), text: l.text.clone(), data }
}

/// One page of lines: the window of `terminal_y - 2 * padding_y` lines
/// starting at `offset`.
pub fn get_page(lines: &Vec<Line>, terminal_y: u16, padding_y: u16, offset: usize) -> (page: Vec<
    Line,
>)
    requires
        2 * padding_y as int <= terminal_y as int,
        offset + (terminal_y as int - 2 * padding_y as int) <= lines@.len(),
    ensures
        page@.len() == terminal_y as int - 2 * padding_y as int,
        forall|j: int|
            0 <= j < page@.len() ==> line_like(#[trigger] page@[j], lines@[offset + j]),
{
    let max_lines: usize = (terminal_y as usize) - 2 * (padding_y as usize);
    let total = lines.len();
    let mut page: Vec<Line> = Vec::new();
    let mut j: usize = 0;
    while j < max_lines
        invariant
            0 <= j <= max_lines,
            total == lines@.len(),
            offset + max_lines <= total,
            page@.len() == j,
            forall|m: int|
                0 <= m < page@.len() ==> line_like(#[trigger] page@[m], lines@[offset + m]),
        decreases max_lines - j,
    {
        page.push(clone_line(&lines[offset + j]));
        j = j + 1;
    }
    page
}

/// Relies on `uuid::Uuid::new_v4` and the hyphenated `Display` form of a
/// UUID: a fresh random identifier rendered as 36 characters.  Nothing
/// is promised of which identifier comes back.
#[verifier::external_body]
fn new_line_id() -> (r: String)
    ensures
        r@.len() == 36,
{
    uuid::Uuid::new_v4().to_string()
}

} // verus!

verus! {

/// One line under construction or emitted: its text and the pairs that
/// built it.
pub type LineRec = (Seq<char>, Seq<InputField>);

/// The text one pair contributes: `key: value `.
pub open spec fn seg_of(f: InputField) -> Seq<char> {
    f.key@ + ": "@ + f.value@ + " "@
}

/// One packing step.  A segment wider than the line budget is dropped;
/// one that still fits strictly under the budget extends the current
/// line; one that overflows it finishes the current line and starts a
/// fresh one; one that would land exactly on the budget is dropped.
pub open spec fn field_step(done: Seq<LineRec>, cur: LineRec, f: InputField, chunk: int) -> (
    Seq<LineRec>,
    LineRec,
) {
    let seg = seg_of(f);
    if blen(seg) > chunk {
        (done, cur)
    } else if blen(cur.0) + blen(seg) < chunk {
        (done, (cur.0 + seg, cur.1.push(f)))
    } else if blen(cur.0) + blen(seg) > chunk {
        (done.push(cur), (seg, seq![f]))
    } else {
        (done, cur)
    }
}

/// The packing state after the first `k` pairs of one record.
pub open spec fn fields_fold(fields: Seq<InputField>, chunk: int, k: int) -> (
    Seq<LineRec>,
    LineRec,
)
    decreases k,
{
    if k <= 0 {
        (Seq::empty(), (Seq::empty(), Seq::empty()))
    } else {
        let p = fields_fold(fields, chunk, k - 1);
        field_step(p.0, p.1, fields[k - 1], chunk)
    }
}

/// The lines one record produces: its packed lines, the last one only
/// when it holds text, and a blank separator line.
pub open spec fn item_lines(fields: Seq<InputField>, chunk: int) -> Seq<LineRec> {
    let r = fields_fold(fields, chunk, fields.len() as int);
    let with_cur = if blen(r.1.0) > 0 {
        r.0.push(r.1)
    } else {
        r.0
    };
    with_cur.push((Seq::empty(), Seq::empty()))
}

/// The lines of the first `m` records.
pub open spec fn items_fold(items: Seq<Vec<InputField>>, chunk: int, m: int) -> Seq<LineRec>
    decreases m,
{
    if m <= 0 {
        Seq::empty()
    } else {
        items_fold(items, chunk, m - 1) + item_lines(items[m - 1]@, chunk)
    }
}

/// The lines of all records at the given line budget.
pub open spec fn lines_spec(items: Seq<Vec<InputField>>, chunk: int) -> Seq<LineRec> {
    items_fold(items, chunk, items.len() as int)
}

/// The built lines carry exactly the computed texts and pairs; blank
/// separator lines carry an empty id, content lines a 36-character one.
pub open spec fn lines_match(ls: Seq<Line>, recs: Seq<LineRec>) -> bool {
    &&& ls.len() == recs.len()
    &&& forall|j: int|
        0 <= j < ls.len() ==> {
            let l = #[trigger] ls[j];
            &&& l.text@ == recs[j].0
            &&& l.data@ == recs[j].1
            &&& (recs[j].0.len() == 0 ==> l.id@.len() == 0)
            &&& (recs[j].0.len() > 0 ==> l.id@.len() == 36)
        }
}

/// Builds the pager's lines from the records of an input batch: each
/// record's `key: value ` segments are packed into lines no wider than
/// the terminal (minus padding), and records are separated by one blank
/// line.  The vertical measurements are accepted for interface parity
/// and do not influence the text.
pub fn get_lines(
    items: &Vec<Vec<InputField>>,
    terminal_y: u16,
    terminal_x: u16,
    padding_y: u16,
    padding_x: u16,
) -> (r: Vec<Line>)
    requires
        2 * padding_x as int <= terminal_x as int,
    ensures
        lines_match(r@, lines_spec(items@, terminal_x as int - 2 * padding_x as int)),
{
    let _ = terminal_y;
    let _ = padding_y;
    let chunk: usize = (terminal_x as usize) - 2 * (padding_x as usize);
    let mut lines: Vec<Line> = Vec::new();
    let mut it: usize = 0;
    while it < items.len()
        invariant
            0 <= it <= items@.len(),
            chunk as int == terminal_x as int - 2 * padding_x as int,
            lines_match(lines@, items_fold(items@, chunk as int, it as int)),
        decreases items@.len() - it,
    {
        let fields = &items[it];
        let mut current_text = String::new();
        let mut current_data: Vec<InputField> = Vec::new();
        let mut k: usize = 0;
        while k < fields.len()
            invariant
                0 <= it < items@.len(),
                fields@ == items@[it as int]@,
                0 <= k <= fields@.len(),
                chunk as int == terminal_x as int - 2 * padding_x as int,
                lines_match(
                    lines@,
                    items_fold(items@, chunk as int, it as int) + fields_fold(
                        fields@,
                        chunk as int,
                        k as int,
                    ).0,
                ),
                current_text@ == fields_fold(fields@, chunk as int, k as int).1.0,
                current_data@ == fields_fold(fields@, chunk as int, k as int).1.1,
            decreases fields@.len() - k,
        {
            let f = &fields[k];
            let mut seg = f.key.clone();
            seg.append(": ");
            seg.append(f.value.as_str());
            seg.append(" ");
            proof {
                assert(seg@ =~= seg_of(fields@[k as int]));
            }
            let seg_len = seg.as_str().len();
            let cur_len = current_text.as_str().len();
            proof {
                assert(seg_len as int == blen(seg@));
                assert(cur_len as int == blen(current_text@));
            }
            let ghost st = fields_fold(fields@, chunk as int, k as int);
            if seg_len > chunk {
                proof {
                    assert(fields_fold(fields@, chunk as int, k + 1) == st);
                }
            } else if (cur_len as u128) + (seg_len as u128) < (chunk as u128) {
                current_text.append(seg.as_str());
                current_data.push(f.clone());
                proof {
                    let st1 = fields_fold(fields@, chunk as int, k + 1);
                    assert(st1.0 == st.0);
                    assert(current_text@ =~= st1.1.0);
                    assert(current_data@ =~= st1.1.1);
                }
            } else if (cur_len as u128) + (seg_len as u128) > (chunk as u128) {
                let id = new_line_id();
                let done = Line { id, text: current_text, data: current_data };
                lines.push(done);
                current_text = seg;
                current_data = Vec::new();
                current_data.push(f.clone());
                proof {
                    let st1 = fields_fold(fields@, chunk as int, k + 1);
                    assert(st1.0 == st.0.push(st.1));
                    assert(vstd::utf8::encode_utf8(Seq::<char>::empty()).len() == 0);
                    assert(st.1.0.len() > 0);
                    let base = items_fold(items@, chunk as int, it as int);
                    assert(lines_match(lines@, base + st1.0)) by {
                        assert((base + st1.0).len() == lines@.len());
                        assert(forall|j: int|
                            0 <= j < lines@.len() - 1 ==> (base + st1.0)[j] == (base + st.0)[j]);
                        assert((base + st1.0)[lines@.len() - 1] == st.1);
                    }
                    assert(current_text@ =~= st1.1.0);
                    assert(current_data@ =~= st1.1.1);
                }
            } else {
                proof {
                    assert(fields_fold(fields@, chunk as int, k + 1) == st);
                }
            }
            k = k + 1;
        }
        let ghost st = fields_fold(fields@, chunk as int, fields@.len() as int);
        let ghost base = items_fold(items@, chunk as int, it as int);
        let cur_len_final = current_text.as_str().len();
        proof {
            assert(cur_len_final as int == blen(current_text@));
            assert(vstd::utf8::encode_utf8(Seq::<char>::empty()).len() == 0);
        }
        if cur_len_final > 0 {
            let id = new_line_id();
            lines.push(Line { id, text: current_text, data: current_data });
            proof {
                assert(current_text@.len() > 0);
                let with_cur = st.0.push(st.1);
                assert(lines_match(lines@, base + with_cur)) by {
                    assert(forall|j: int|
                        0 <= j < lines@.len() - 1 ==> (base + with_cur)[j] == (base + st.0)[j]);
                    assert((base + with_cur)[lines@.len() - 1] == st.1);
                }
            }
        }
        lines.push(Line { id: String::new(), text: String::new(), data: Vec::new() });
        proof {
            let il = item_lines(fields@, chunk as int);
            assert(lines_match(lines@, base + il)) by {
                let with_cur = if blen(st.1.0) > 0 {
                    st.0.push(st.1)
                } else {
                    st.0
                };
                assert(il == with_cur.push((Seq::<char>::empty(), Seq::<InputField>::empty())));
                assert(forall|j: int|
                    0 <= j < lines@.len() - 1 ==> (base + il)[j] == (base + with_cur)[j]);
                assert((base + il)[lines@.len() - 1] == (
                    Seq::<char>::empty(),
                    Seq::<InputField>::empty(),
                ));
            }
            assert(items_fold(items@, chunk as int, it as int + 1) == base + il);
        }
        it = it + 1;
    }
    lines
}

} // verus!
