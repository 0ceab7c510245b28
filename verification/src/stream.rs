//! Server-sent event streams: the `data: ` payloads of log lines and of
//! blank-line-separated event messages.
use vstd::prelude::*;
use crate::text::{
    chars_of, contains, find, find_in, lemma_find_first, lemma_find_spec, lines, lines_of, occurs_at, starts_with,
    starts_with_str, string_of_range,
};

verus! {

/// The payload of a `data: ` line, if the line is one.
pub open spec fn data_of(line: Seq<char>) -> Option<Seq<char>> {
    if starts_with(line, "data: "@) {
        Some(line.subrange(6, line.len() as int))
    } else {
        None
    }
}

/// `str::strip_prefix("data: ")`.
pub fn strip_data_prefix(line: &str) -> (r: Option<String>)
    ensures
        match r {
            Some(d) => data_of(line@) == Some(d@),
            None => data_of(line@) is None,
        },
{
    proof {
        reveal_strlit("data: ");
    }
    if starts_with_str(line, "data: ") {
        let v = chars_of(line);
        Some(string_of_range(&v, 6, v.len()))
    } else {
        None
    }
}

/// The payloads of the `data: ` lines among `ls`, in order.
pub open spec fn data_lines(ls: Seq<Seq<char>>) -> Seq<Seq<char>>
    decreases ls.len(),
{
    if ls.len() == 0 {
        seq![]
    } else {
        data_lines(ls.drop_last()) + match data_of(ls.last()) {
            Some(d) => seq![d],
            None => seq![],
        }
    }
}

/// The payloads of the `data: ` lines of a chunk of a log stream.
pub fn log_data_lines(text: &str) -> (r: Vec<String>)
    ensures
        r@.map_values(|s: String| s@) == data_lines(lines(text@)),
{
    let ls = lines_of(text);
    let ghost lv = ls@.map_values(|l: String| l@);
    let mut r: Vec<String> = Vec::new();
    let mut i: usize = 0;
    while i < ls.len()
        invariant
            lv == ls@.map_values(|l: String| l@),
            lv == lines(text@),
            i <= ls.len(),
            r@.map_values(|s: String| s@) == data_lines(lv.take(i as int)),
        decreases ls.len() - i,
    {
        proof {
            crate::panel::lemma_lines_take(lv, i as int);
        }
        let ghost before = r@;
        match strip_data_prefix(ls[i].as_str()) {
            Some(d) => {
                r.push(d);
                assert(r@.map_values(|s: String| s@) =~= before.map_values(|s: String| s@) + seq![lv[i as int].subrange(6, lv[i as int].len() as int)]);
            },
            None => {},
        }
        assert(r@.map_values(|s: String| s@) =~= data_lines(lv.take(i + 1)));
        i += 1;
    }
    assert(lv.take(ls.len() as int) =~= lv);
    r
}

/// What a buffer of event-stream text holds: the payloads of its complete
/// messages (each ended by a blank line; those that are no `data: ` line
/// give none) and the text left after the last complete message.
pub open spec fn sse_split(buf: Seq<char>) -> (Seq<Seq<char>>, Seq<char>)
    decreases buf.len(),
{
    match find(buf, "\n\n"@) {
        Some(i) => {
            if 0 <= i && i + 2 <= buf.len() {
                let msg = buf.subrange(0, i);
                let rest = sse_split(buf.subrange(i + 2, buf.len() as int));
                (match data_of(msg) {
                    Some(d) => seq![d],
                    None => seq![],
                } + rest.0, rest.1)
            } else {
                (seq![], buf)
            }
        },
        None => (seq![], buf),
    }
}

/// Take the complete messages out of an event-stream buffer: returns their
/// payloads and leaves in `buffer` the text after the last blank line.
pub fn take_sse_messages(buffer: &mut String) -> (datas: Vec<String>)
    ensures
        datas@.map_values(|s: String| s@) == sse_split(old(buffer)@).0,
        final(buffer)@ == sse_split(old(buffer)@).1,
{
    proof {
        reveal_strlit("\n\n");
        assert("\n\n"@ =~= seq!['\n', '\n']);
    }
    let sep = chars_of("\n\n");
    let v = chars_of(buffer.as_str());
    let ghost whole = v@;
    let mut start: usize = 0;
    let mut datas: Vec<String> = Vec::new();
    assert(v@.subrange(0, v.len() as int) =~= v@);
    assert(datas@.map_values(|s: String| s@) =~= Seq::<Seq<char>>::empty());
    loop
        invariant
            whole == old(buffer)@,
            sep@ == "\n\n"@,
            sep@ == seq!['\n', '\n'],
            whole == v@,
            start <= v.len(),
            datas@.map_values(|s: String| s@) + sse_split(v@.subrange(start as int, v.len() as int)).0
                == sse_split(whole).0,
            sse_split(v@.subrange(start as int, v.len() as int)).1 == sse_split(whole).1,
        decreases v.len() - start,
    {
        let rest = string_of_range(&v, start, v.len());
        let rv = chars_of(rest.as_str());
        let ghost tail = v@.subrange(start as int, v.len() as int);
        assert(rv@ == tail);
        match find_in(&rv, &sep) {
            Some(i) => {
                proof {
                    assert(occurs_at(tail, sep@, i as int));
                    assert(i + 2 <= tail.len());
                }
                let msg = string_of_range(&rv, 0, i);
                let ghost before = datas@;
                match strip_data_prefix(msg.as_str()) {
                    Some(d) => {
                        datas.push(d);
                    },
                    None => {},
                }
                proof {
                    assert(tail.subrange(i + 2, tail.len() as int) =~= v@.subrange(start + i + 2, v.len() as int));
                    let d0 = match data_of(tail.subrange(0, i as int)) {
                        Some(d) => seq![d],
                        None => Seq::<Seq<char>>::empty(),
                    };
                    assert(datas@.map_values(|s: String| s@) =~= before.map_values(|s: String| s@) + d0);
                    assert(sse_split(tail).0 == d0 + sse_split(v@.subrange(start + i + 2, v.len() as int)).0);
                    assert(datas@.map_values(|s: String| s@) + sse_split(v@.subrange(start + i + 2, v.len() as int)).0
                        =~= before.map_values(|s: String| s@) + sse_split(tail).0);
                }
                start = start + i + 2;
            },
            None => {
                proof {
                    assert(sse_split(tail) == (Seq::<Seq<char>>::empty(), tail));
                    assert(datas@.map_values(|s: String| s@) + Seq::<Seq<char>>::empty() =~= datas@.map_values(|s: String| s@));
                }
                *buffer = rest;
                return datas;
            },
        }
    }
}


/// What stays in the buffer holds no complete message: no blank line.
pub proof fn sse_rest_has_no_complete_message(buf: Seq<char>)
    ensures
        !contains(sse_split(buf).1, "\n\n"@),
    decreases buf.len(),
{
    reveal_strlit("\n\n");
    assert("\n\n"@.len() == 2);
    lemma_find_spec(buf, "\n\n"@);
    match find(buf, "\n\n"@) {
        Some(i) => {
            sse_rest_has_no_complete_message(buf.subrange(i + 2, buf.len() as int));
        },
        None => {},
    }
}


/// Feeding a stream in two chunks gives what feeding it at once gives: the
/// messages of the first chunk, then those of what it left with the second
/// chunk appended, and the same text left over.
pub proof fn sse_chunking_does_not_matter(a: Seq<char>, b: Seq<char>)
    ensures
        sse_split(a + b) == (
            sse_split(a).0 + sse_split(sse_split(a).1 + b).0,
            sse_split(sse_split(a).1 + b).1,
        ),
    decreases a.len(),
{
    reveal_strlit("\n\n");
    let p = "\n\n"@;
    assert(p.len() == 2);
    lemma_find_spec(a, p);
    match find(a, p) {
        Some(i) => {
            let a2 = a.subrange(i + 2, a.len() as int);
            sse_chunking_does_not_matter(a2, b);
            let s = a + b;
            assert forall|j: int| 0 <= j < i implies !occurs_at(s, p, j) by {
                if occurs_at(s, p, j) {
                    assert(s.subrange(j, j + 2) =~= a.subrange(j, j + 2));
                    assert(occurs_at(a, p, j));
                }
            }
            assert(s.subrange(i, i + 2) =~= a.subrange(i, i + 2));
            lemma_find_first(s, p, i);
            assert(s.subrange(0, i) =~= a.subrange(0, i));
            assert(s.subrange(i + 2, s.len() as int) =~= a2 + b);
            let d = match data_of(a.subrange(0, i)) {
                Some(x) => seq![x],
                None => Seq::<Seq<char>>::empty(),
            };
            assert(sse_split(a).0 == d + sse_split(a2).0);
            assert(sse_split(s).0 == d + sse_split(a2 + b).0);
            assert(sse_split(s).0 =~= sse_split(a).0 + sse_split(sse_split(a).1 + b).0);
        },
        None => {
            assert(sse_split(a) == (Seq::<Seq<char>>::empty(), a));
            assert(Seq::<Seq<char>>::empty() + sse_split(a + b).0 =~= sse_split(a + b).0);
        },
    }
}

} // verus!
