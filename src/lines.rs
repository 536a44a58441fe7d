//! Turning newline-delimited text into records.
use vstd::prelude::*;

verus! {

/// A line without its `\r` terminator, if it has one.
pub open spec fn strip_cr(line: Seq<char>) -> Seq<char> {
    if line.len() > 0 && line.last() == '\r' {
        line.drop_last()
    } else {
        line
    }
}

/// Reading `s` from the front: the lines closed by a `\n` so far (each
/// without its terminator) and the text after the last `\n`.
pub open spec fn scan(s: Seq<char>) -> (Seq<Seq<char>>, Seq<char>)
    decreases s.len(),
{
    if s.len() == 0 {
        (Seq::empty(), Seq::empty())
    } else {
        let (done, cur) = scan(s.drop_last());
        if s.last() == '\n' {
            (done.push(strip_cr(cur)), Seq::empty())
        } else {
            (done, cur.push(s.last()))
        }
    }
}

/// The records of a text: one per line, without the `\n` or `\r\n` that ends
/// it; a last line that has no terminator counts when it is not empty.
pub open spec fn lines_of(s: Seq<char>) -> Seq<Seq<char>> {
    let (done, cur) = scan(s);
    if cur.len() == 0 {
        done
    } else {
        done.push(cur)
    }
}

/// Relies on String::push: `c` is appended.
#[verifier::external_body]
fn push_char(s: &mut String, c: char)
    ensures
        final(s)@ == old(s)@.push(c),
{
    s.push(c);
}

/// Splits `text` into its records, in the order in which they stand.
pub fn split_lines(text: &str) -> (r: Vec<String>)
    ensures
        r@.map_values(|l: String| l@) == lines_of(text@),
{
    let mut out: Vec<String> = Vec::new();
    let mut cur = String::new();
    let mut pending_cr = false;
    for c in it: text.chars()
        invariant
            it.seq() == text@,
            ({
                let (done, open) = scan(text@.take(it.index() as int));
                &&& out@.map_values(|l: String| l@) == done
                &&& open == if pending_cr { cur@.push('\r') } else { cur@ }
            }),
            !pending_cr ==> (cur@.len() > 0 ==> cur@.last() != '\r'),
    {
        let ghost before = text@.take(it.index() as int);
        proof {
            assert(text@.take(it.index() + 1).drop_last() =~= before);
        }
        if c == '\n' {
            let ghost done = out@.map_values(|l: String| l@);
            proof {
                if pending_cr {
                    assert(cur@.push('\r').drop_last() =~= cur@);
                }
                assert(strip_cr(scan(before).1) == cur@);
            }
            out.push(cur);
            proof {
                assert(out@.map_values(|l: String| l@) =~= done.push(strip_cr(scan(before).1)));
            }
            cur = String::new();
            pending_cr = false;
        } else {
            if pending_cr {
                push_char(&mut cur, '\r');
                pending_cr = false;
            }
            if c == '\r' {
                pending_cr = true;
            } else {
                push_char(&mut cur, c);
            }
        }
    }
    proof {
        assert(text@.take(text@.len() as int) =~= text@);
    }
    if pending_cr {
        push_char(&mut cur, '\r');
    }
    if !cur.as_str().is_empty() {
        let ghost done = out@.map_values(|l: String| l@);
        out.push(cur);
        proof {
            assert(out@.map_values(|l: String| l@) =~= done.push(scan(text@).1));
        }
    }
    out
}

} // verus!
