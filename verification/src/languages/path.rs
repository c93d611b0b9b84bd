//! The stem of a file name.

use vstd::prelude::*;

use crate::text::{chars_of, string_of_range};

verus! {

/// The last segment of a path that names something: neither empty nor `.`.
/// The search runs over the segments of `s[..end]`, from the back.
pub open spec fn last_segment(s: Seq<char>) -> Seq<char>
    decreases s.len(),
{
    let start = segment_start(s);
    if start < 0 || start > s.len() {
        s
    } else {
        let seg = s.skip(start);
        if seg.len() == 0 || seg == seq!['.'] {
            if start == 0 {
                Seq::empty()
            } else {
                last_segment(s.take(start - 1))
            }
        } else {
            seg
        }
    }
}

/// Where the last segment begins: just after the last `/`.
pub open spec fn segment_start(s: Seq<char>) -> int
    decreases s.len(),
{
    if s.len() == 0 || s.last() == '/' {
        s.len() as int
    } else {
        segment_start(s.drop_last())
    }
}

/// The place of the last `.`, or -1.
pub open spec fn last_dot(s: Seq<char>) -> int
    decreases s.len(),
{
    if s.len() == 0 {
        -1
    } else if s.last() == '.' {
        s.len() - 1
    } else {
        last_dot(s.drop_last())
    }
}

/// The stem of the file that a path names: its last segment up to the last
/// dot. A dot that begins the name belongs to the stem. A path that ends in
/// `..`, or that has no segment, names no file.
pub open spec fn file_stem_of(path: Seq<char>) -> Option<Seq<char>> {
    let name = last_segment(path);
    if name.len() == 0 || name == seq!['.', '.'] {
        None
    } else if last_dot(name) > 0 {
        Some(name.take(last_dot(name)))
    } else {
        Some(name)
    }
}

/// The stem of the file that a path names.
pub fn file_stem(path: &str) -> (r: Option<String>)
    ensures
        match file_stem_of(path@) {
            Some(stem) => r matches Some(t) && t@ == stem,
            None => r is None,
        },
{
    let chars = chars_of(path);
    let mut end: usize = chars.len();
    assert(chars@.take(end as int) =~= path@);
    loop
        invariant
            end <= chars@.len(),
            chars@ == path@,
            last_segment(chars@.take(end as int)) == last_segment(path@),
        decreases end,
    {
        let ghost s = chars@.take(end as int);
        let mut start: usize = end;
        assert(s.take(end as int) =~= s);
        while start > 0 && chars[start - 1] != '/'
            invariant
                start <= end <= chars@.len(),
                s == chars@.take(end as int),
                segment_start(s.take(start as int)) == segment_start(s),
            decreases start,
        {
            assert(s.take(start as int).drop_last() =~= s.take(start as int - 1));
            assert(s.take(start as int).last() == chars@[start as int - 1]);
            start -= 1;
        }
        proof {
            if start > 0 {
                assert(s.take(start as int).last() == chars@[start as int - 1]);
            }
            assert(segment_start(s) == start);
            assert(s.skip(start as int) =~= chars@.subrange(start as int, end as int));
        }
        let ghost seg = s.skip(start as int);
        let empty = start == end;
        let dot = end - start == 1 && chars[start] == '.';
        proof {
            if dot {
                assert(seg =~= seq!['.']);
            } else if seg == seq!['.'] {
                assert(seg.len() == 1 && seg[0] == '.');
            }
        }
        if empty || dot {
            if start == 0 {
                return None;
            }
            assert(s.take(start as int - 1) =~= chars@.take(start as int - 1));
            end = start - 1;
        } else {
            let parent = end - start == 2 && chars[start] == '.' && chars[start + 1] == '.';
            proof {
                if parent {
                    assert(seg =~= seq!['.', '.']);
                } else if seg == seq!['.', '.'] {
                    assert(seg.len() == 2 && seg[0] == '.' && seg[1] == '.');
                }
            }
            if parent {
                return None;
            }
            let mut at: usize = end;
            assert(seg.take(end - start) =~= seg);
            while at > start && chars[at - 1] != '.'
                invariant
                    start <= at <= end <= chars@.len(),
                    seg == chars@.subrange(start as int, end as int),
                    last_dot(seg.take(at - start)) == last_dot(seg),
                decreases at,
            {
                assert(seg.take(at - start).drop_last() =~= seg.take(at - start - 1));
                assert(seg.take(at - start).last() == chars@[at as int - 1]);
                at -= 1;
            }
            proof {
                if at > start {
                    assert(seg.take(at - start).last() == chars@[at as int - 1]);
                    assert(last_dot(seg) == at - start - 1);
                    assert(seg.take(at - start - 1) =~= chars@.subrange(
                        start as int,
                        at as int - 1,
                    ));
                }
            }
            if at > start && at - 1 > start {
                return Some(string_of_range(&chars, start, at - 1));
            }
            return Some(string_of_range(&chars, start, end));
        }
    }
}

} // verus!
