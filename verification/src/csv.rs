//! The CSV export of a capture: `# key: value` metadata lines, a
//! `time,<label>...` header, then one row per time point; a channel shorter
//! than the time axis leaves its cell empty.
use vstd::prelude::*;
use crate::oscilloscope::string_pairs;
use crate::order::string_views;
use crate::text::push_str;

verus! {

/// The metadata lines, `# key: value` each.
pub open spec fn meta_lines(meta: Seq<(Seq<char>, Seq<char>)>) -> Seq<char>
    decreases meta.len(),
{
    if meta.len() == 0 {
        Seq::empty()
    } else {
        meta_lines(meta.drop_last()) + "# "@ + meta.last().0 + ": "@ + meta.last().1 + "\n"@
    }
}

/// `,label` for each label.
pub open spec fn label_cells(labels: Seq<Seq<char>>) -> Seq<char>
    decreases labels.len(),
{
    if labels.len() == 0 {
        Seq::empty()
    } else {
        label_cells(labels.drop_last()) + ","@ + labels.last()
    }
}

/// The header line.
pub open spec fn header_line(labels: Seq<Seq<char>>) -> Seq<char> {
    "time"@ + label_cells(labels) + "\n"@
}

/// `,value` for each channel at time index `i`, empty after the comma when
/// the channel has no sample there.
pub open spec fn row_cells(data: Seq<Seq<Seq<char>>>, i: int) -> Seq<char>
    decreases data.len(),
{
    if data.len() == 0 {
        Seq::empty()
    } else {
        row_cells(data.drop_last(), i) + ","@ + if i < data.last().len() {
            data.last()[i]
        } else {
            Seq::empty()
        }
    }
}

/// The data rows for the time points of `time`.
pub open spec fn data_rows(time: Seq<Seq<char>>, data: Seq<Seq<Seq<char>>>) -> Seq<char>
    decreases time.len(),
{
    if time.len() == 0 {
        Seq::empty()
    } else {
        data_rows(time.drop_last(), data) + time.last() + row_cells(data, time.len() - 1) + "\n"@
    }
}

/// The channels' cells as character sequences.
pub open spec fn matrix_views(data: Seq<Vec<String>>) -> Seq<Seq<Seq<char>>> {
    data.map_values(|c: Vec<String>| string_views(c@))
}

/// The whole document.
pub open spec fn csv_text(
    meta: Seq<(Seq<char>, Seq<char>)>,
    labels: Seq<Seq<char>>,
    time: Seq<Seq<char>>,
    data: Seq<Seq<Seq<char>>>,
) -> Seq<char> {
    meta_lines(meta) + header_line(labels) + data_rows(time, data)
}

/// Builds the CSV document of a capture whose numbers are already
/// formatted: `time[i]` is the time of row `i`, `data[c][i]` the sample of
/// channel `c` at that time.
pub fn csv_document(
    metadata: &Vec<(String, String)>,
    labels: &Vec<String>,
    time: &Vec<String>,
    data: &Vec<Vec<String>>,
) -> (r: String)
    ensures
        r@ == csv_text(
            string_pairs(metadata@),
            string_views(labels@),
            string_views(time@),
            matrix_views(data@),
        ),
{
    let ghost meta = string_pairs(metadata@);
    let ghost labs = string_views(labels@);
    let ghost times = string_views(time@);
    let ghost mat = matrix_views(data@);
    let mut s = String::new();
    let mut k: usize = 0;
    while k < metadata.len()
        invariant
            k <= metadata@.len(),
            meta == string_pairs(metadata@),
            s@ == meta_lines(meta.subrange(0, k as int)),
        decreases metadata@.len() - k,
    {
        assert(meta.subrange(0, k + 1).drop_last() =~= meta.subrange(0, k as int));
        assert(meta.subrange(0, k + 1).last() == (metadata@[k as int].0@, metadata@[k as int].1@));
        push_str(&mut s, "# ");
        push_str(&mut s, metadata[k].0.as_str());
        push_str(&mut s, ": ");
        push_str(&mut s, metadata[k].1.as_str());
        push_str(&mut s, "\n");
        k = k + 1;
    }
    assert(meta.subrange(0, k as int) =~= meta);
    let ghost after_meta = s@;
    push_str(&mut s, "time");
    let mut k: usize = 0;
    while k < labels.len()
        invariant
            k <= labels@.len(),
            labs == string_views(labels@),
            s@ == after_meta + "time"@ + label_cells(labs.subrange(0, k as int)),
        decreases labels@.len() - k,
    {
        assert(labs.subrange(0, k + 1).drop_last() =~= labs.subrange(0, k as int));
        assert(labs.subrange(0, k + 1).last() == labels@[k as int]@);
        push_str(&mut s, ",");
        push_str(&mut s, labels[k].as_str());
        k = k + 1;
    }
    assert(labs.subrange(0, k as int) =~= labs);
    push_str(&mut s, "\n");
    let ghost before_rows = s@;
    assert(before_rows == meta_lines(meta) + header_line(labs));
    let mut i: usize = 0;
    while i < time.len()
        invariant
            i <= time@.len(),
            times == string_views(time@),
            mat == matrix_views(data@),
            s@ == before_rows + data_rows(times.subrange(0, i as int), mat),
        decreases time@.len() - i,
    {
        let ghost row_start = s@;
        push_str(&mut s, time[i].as_str());
        let mut c: usize = 0;
        while c < data.len()
            invariant
                c <= data@.len(),
                i < time@.len(),
                mat == matrix_views(data@),
                s@ == row_start + time@[i as int]@ + row_cells(mat.subrange(0, c as int), i as int),
            decreases data@.len() - c,
        {
            let ghost cells = mat.subrange(0, c + 1);
            assert(cells.drop_last() =~= mat.subrange(0, c as int));
            assert(cells.last() == string_views(data@[c as int]@));
            push_str(&mut s, ",");
            if i < data[c].len() {
                push_str(&mut s, data[c][i].as_str());
            }
            c = c + 1;
        }
        assert(mat.subrange(0, c as int) =~= mat);
        push_str(&mut s, "\n");
        proof {
            let next = times.subrange(0, i + 1);
            assert(next.drop_last() =~= times.subrange(0, i as int));
            assert(next.last() == time@[i as int]@);
        }
        i = i + 1;
    }
    assert(times.subrange(0, i as int) =~= times);
    s
}

} // verus!
