//! Locating the query string in a log line and reading single-character
//! parameters out of it.

use vstd::prelude::*;

verus! {

use vstd::string::StrSliceExecFns;
use crate::text::index_of_first;
use crate::text::lemma_index_of_first_at;
use crate::text::lemma_index_of_first_none;

/// The query string of `line`: everything strictly after the first `?`.
/// An absent `?` and a `?` with nothing after it both count as "no query
/// string".  Later `?` characters belong to the query string.
pub open spec fn spec_query_string(line: Seq<char>) -> Option<Seq<char>>
    decreases line.len(),
{
    if line.len() == 0 {
        None
    } else if line[0] == '?' {
        if line.len() > 1 {
            Some(line.skip(1))
        } else {
            None
        }
    } else {
        spec_query_string(line.skip(1))
    }
}

/// Scanning past `?`-free text does not change the query string.
proof fn lemma_query_string_skip_one(s: Seq<char>)
    requires
        s.len() > 0,
        s[0] != '?',
    ensures
        spec_query_string(s) == spec_query_string(s.skip(1)),
{
}

/// The raw value of a `&`-separated parameter whose `<key>=` prefix has
/// already been removed: everything up to the next `&`, or to the end of the
/// text, except that a trailing line break is not part of the value.
pub open spec fn spec_value_run(rest: Seq<char>) -> Seq<char> {
    match index_of_first(rest, '&') {
        Some(j) => rest.take(j),
        None => if rest.len() > 0 && rest.last() == '\n' {
            rest.drop_last()
        } else {
            rest
        },
    }
}

/// The value of the single-character parameter `key` in the query string
/// `qs`: the text after the first occurrence of `key` immediately followed
/// by `=`, cut as `spec_value_run` says.  A `key` character without a
/// following `=` (also one at the very end) is not a match.
pub open spec fn spec_param_value(qs: Seq<char>, key: char) -> Option<Seq<char>>
    decreases qs.len(),
{
    if qs.len() < 2 {
        None
    } else if qs[0] == key && qs[1] == '=' {
        Some(spec_value_run(qs.skip(2)))
    } else {
        spec_param_value(qs.skip(1), key)
    }
}

/// Find the query string in a URL: the text after the first `?` character.
/// Yields `None` when there is no `?` and when nothing follows it.
pub fn get_query_string<'a>(line: &'a String) -> (r: Option<&'a str>)
    ensures
        match r {
            Some(qs) => spec_query_string(line@) == Some(qs@),
            None => spec_query_string(line@) is None,
        },
{
    let s = line.as_str();
    let n = s.unicode_len();
    let mut i: usize = 0;
    proof {
        assert(line@.skip(0) =~= line@);
    }
    while i < n
        invariant
            0 <= i <= n,
            n == s@.len(),
            s@ == line@,
            spec_query_string(line@) == spec_query_string(line@.skip(i as int)),
        decreases n - i,
    {
        if s.get_char(i) == '?' {
            proof {
                assert(line@.skip(i as int)[0] == '?');
            }
            if i + 1 < n {
                let qs = s.substring_char(i + 1, n);
                proof {
                    assert(line@.skip(i as int).skip(1) =~= line@.skip(i + 1));
                    assert(qs@ =~= line@.skip(i + 1));
                }
                return Some(qs);
            } else {
                proof {
                    assert(line@.skip(i as int).len() == 1);
                }
                return None;
            }
        }
        proof {
            assert(line@.skip(i as int)[0] != '?');
            lemma_query_string_skip_one(line@.skip(i as int));
            assert(line@.skip(i as int).skip(1) =~= line@.skip(i + 1));
        }
        i += 1;
    }
    proof {
        assert(line@.skip(n as int).len() == 0);
    }
    None
}

/// Read the raw text of the parameter `parameter` out of `query_string`:
/// the text between `<parameter>=` and the next `&` (or the end of the
/// string, leaving out a trailing line break).  `None` when the parameter
/// does not occur; a bare key character without `=` after it never matches.
pub fn get_query_string_parameter_value<'a>(query_string: &'a str, parameter: &char) -> (r: Option<
    &'a str,
>)
    ensures
        match r {
            Some(v) => spec_param_value(query_string@, *parameter) == Some(v@),
            None => spec_param_value(query_string@, *parameter) is None,
        },
{
    let s = query_string;
    let key = *parameter;
    let n = s.unicode_len();
    let mut i: usize = 0;
    proof {
        assert(s@.skip(0) =~= s@);
    }
    while i < n
        invariant
            0 <= i <= n,
            n == s@.len(),
            s == query_string,
            key == *parameter,
            spec_param_value(s@, key) == spec_param_value(s@.skip(i as int), key),
        decreases n - i,
    {
        if s.get_char(i) == key && i + 1 < n && s.get_char(i + 1) == '=' {
            proof {
                assert(s@.skip(i as int)[0] == key);
                assert(s@.skip(i as int)[1] == '=');
                assert(s@.skip(i as int).skip(2) =~= s@.skip(i + 2));
            }
            return Some(value_run(s, i + 2));
        }
        proof {
            let suffix = s@.skip(i as int);
            assert(suffix.len() >= 1 && suffix[0] == s@[i as int]);
            if suffix.len() >= 2 {
                assert(!(suffix[0] == key && suffix[1] == '='));
            }
            assert(suffix.skip(1) =~= s@.skip(i + 1));
        }
        i += 1;
    }
    proof {
        assert(s@.skip(n as int).len() == 0);
    }
    None
}

/// Cut the value that starts at character `start` of `s`: up to the next
/// `&`, or to the end of the string with a trailing line break left out.
fn value_run<'a>(s: &'a str, start: usize) -> (r: &'a str)
    requires
        start <= s@.len(),
    ensures
        r@ == spec_value_run(s@.skip(start as int)),
{
    let ghost rest = s@.skip(start as int);
    let n = s.unicode_len();
    let mut j: usize = start;
    while j < n
        invariant
            start <= j <= n,
            n == s@.len(),
            rest == s@.skip(start as int),
            forall|k: int| 0 <= k < j - start ==> rest[k] != '&',
        decreases n - j,
    {
        if s.get_char(j) == '&' {
            proof {
                assert(rest[j - start] == '&');
                lemma_index_of_first_at(rest, '&', j - start);
                assert(rest.take(j - start) =~= s@.subrange(start as int, j as int));
            }
            return s.substring_char(start, j);
        }
        proof {
            assert(rest[j - start] == s@[j as int]);
        }
        j += 1;
    }
    proof {
        lemma_index_of_first_none(rest, '&');
    }
    if n > start && s.get_char(n - 1) == '\n' {
        proof {
            assert(rest.len() > 0 && rest.last() == '\n');
            assert(rest.drop_last() =~= s@.subrange(start as int, n - 1));
        }
        s.substring_char(start, n - 1)
    } else {
        proof {
            if rest.len() > 0 {
                assert(rest.last() == s@[n - 1]);
            }
            assert(rest =~= s@.subrange(start as int, n as int));
        }
        s.substring_char(start, n)
    }
}

} // verus!
