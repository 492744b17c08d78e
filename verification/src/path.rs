//! Path rendering: the chain of names from the root down to a node,
//! joined into the prompt line of the shell.
//!
//! The tree is owned top-down; the non-owning back-channel from a node to
//! the root is the chain of ancestor names that the navigating shell
//! keeps, handed in here root-first. Rendering is O(depth): the segments
//! are joined with `/`, except that no separator is added after a segment
//! that already ends in one (so the root `/` is not doubled), and a
//! trailing prompt marker is appended.

use vstd::prelude::*;
use vstd::string::StrSliceExecFns;
use vstd::string::StringExecFns;

verus! {

/// The names joined root-first: a `/` between adjacent segments, omitted
/// after a segment that already ends with `/`.
pub open spec fn path_join(names: Seq<Seq<char>>) -> Seq<char>
    decreases names.len(),
{
    if names.len() == 0 {
        Seq::empty()
    } else if names.len() == 1 {
        names[0]
    } else {
        let prefix = path_join(names.drop_last());
        if prefix.len() > 0 && prefix.last() == '/' {
            prefix + names.last()
        } else {
            prefix + seq!['/'] + names.last()
        }
    }
}

/// The rendered prompt path: the joined names followed by the prompt
/// marker.
pub open spec fn render_path_spec(names: Seq<Seq<char>>) -> Seq<char> {
    path_join(names) + " > "@
}

/// On a chain of one name -- the root alone -- the joined path is exactly
/// that name: no separator is added, whatever the name holds.
pub proof fn lemma_path_join_root(name: Seq<char>)
    ensures
        path_join(seq![name]) == name,
        render_path_spec(seq![name]) == name + " > "@,
{
}

/// How often `c` occurs in `s`.
pub open spec fn count_char(s: Seq<char>, c: char) -> int
    decreases s.len(),
{
    if s.len() == 0 {
        0
    } else {
        count_char(s.drop_last(), c) + if s.last() == c {
            1int
        } else {
            0int
        }
    }
}

/// A sequence without the character has count zero.
pub proof fn lemma_count_char_zero(s: Seq<char>, c: char)
    requires
        forall|j: int| 0 <= j < s.len() ==> s[j] != c,
    ensures
        count_char(s, c) == 0,
    decreases s.len(),
{
    if s.len() > 0 {
        lemma_count_char_zero(s.drop_last(), c);
    }
}

/// Counting distributes over concatenation.
pub proof fn lemma_count_char_concat(a: Seq<char>, b: Seq<char>, c: char)
    ensures
        count_char(a + b, c) == count_char(a, c) + count_char(b, c),
    decreases b.len(),
{
    if b.len() == 0 {
        assert(a + b =~= a);
    } else {
        lemma_count_char_concat(a, b.drop_last(), c);
        assert((a + b).drop_last() =~= a + b.drop_last());
        assert((a + b).last() == b.last());
    }
}

/// On the root alone the joined path is just the root's name, with no
/// separator added; on a chain of depth `d` whose names are non-empty and
/// free of separators, exactly `d - 1` separators join the `d` segments.
pub proof fn lemma_path_join_depth(names: Seq<Seq<char>>)
    requires
        names.len() >= 1,
        forall|j: int| 0 <= j < names.len() ==> (#[trigger] names[j]).len() > 0,
        forall|j: int, k: int|
            0 <= j < names.len() && 0 <= k < names[j].len() ==> names[j][k] != '/',
    ensures
        names.len() == 1 ==> path_join(names) == names[0],
        count_char(path_join(names), '/') == names.len() - 1,
        path_join(names).len() > 0,
        path_join(names).last() == names.last().last(),
    decreases names.len(),
{
    if names.len() == 1 {
        lemma_count_char_zero(names[0], '/');
    } else {
        lemma_path_join_depth(names.drop_last());
        let prefix = path_join(names.drop_last());
        let last = names.last();
        assert(prefix.last() == names[names.len() - 2].last());
        assert(prefix.last() != '/');
        assert(path_join(names) == prefix + seq!['/'] + last);
        lemma_count_char_concat(prefix, seq!['/'], '/');
        lemma_count_char_concat(prefix + seq!['/'], last, '/');
        lemma_count_char_zero(last, '/');
        assert((prefix + seq!['/']).last() == '/');
        assert(count_char(seq!['/'], '/') == 1) by {
            reveal_with_fuel(count_char, 2);
            assert(seq!['/'].drop_last() =~= Seq::<char>::empty());
            assert(count_char(Seq::<char>::empty(), '/') == 0);
        }
        assert((prefix + seq!['/'] + last).last() == last.last());
    }
}

/// On the root alone the rendered path is the root's name followed only
/// by the prompt marker, with no separator; on a node at depth `d` the
/// rendered path joins the `d` segments with `d - 1` separators.
pub proof fn lemma_render_path_depth(names: Seq<Seq<char>>)
    requires
        names.len() >= 1,
        forall|j: int| 0 <= j < names.len() ==> (#[trigger] names[j]).len() > 0,
        forall|j: int, k: int|
            0 <= j < names.len() && 0 <= k < names[j].len() ==> names[j][k] != '/',
    ensures
        names.len() == 1 ==> render_path_spec(names) == names[0] + " > "@,
        count_char(render_path_spec(names), '/') == names.len() - 1,
{
    lemma_path_join_depth(names);
    reveal_strlit(" > ");
    lemma_count_char_concat(path_join(names), " > "@, '/');
    lemma_count_char_zero(" > "@, '/');
}

/// Renders the prompt path for the given root-first chain of ancestor
/// names.
pub fn render_path(names: &Vec<String>) -> (r: String)
    ensures
        r@ == render_path_spec(names.deep_view()),
{
    let mut result = String::new();
    let mut ends_with_slash = false;
    let n = names.len();
    let mut i: usize = 0;
    while i < n
        invariant
            i <= n,
            n == names@.len(),
            result@ == path_join(names.deep_view().take(i as int)),
            ends_with_slash == (result@.len() > 0 && result@.last() == '/'),
        decreases n - i,
    {
        let ghost prefix = result@;
        let ghost ts = names.deep_view();
        if i > 0 && !ends_with_slash {
            result.push('/');
        }
        let segment = names[i].as_str();
        result.append(segment);
        let m = segment.unicode_len();
        if m > 0 {
            ends_with_slash = segment.get_char(m - 1) == '/';
        } else {
            // an empty segment appends nothing: past the first segment the
            // path still ends in a separator, kept or freshly pushed; at
            // the first segment the path is still empty
            ends_with_slash = i > 0;
        }
        proof {
            assert(ts.take(i as int + 1).drop_last() =~= ts.take(i as int));
            assert(ts.take(i as int + 1).last() == ts[i as int]);
            if i > 0 {
                if prefix.len() > 0 && prefix.last() == '/' {
                    assert(result@ =~= path_join(ts.take(i as int + 1)));
                } else {
                    assert(prefix.push('/') =~= prefix + seq!['/']);
                    assert(result@ =~= path_join(ts.take(i as int + 1)));
                }
            } else {
                assert(ts.take(1) =~= seq![ts[0]]);
                assert(result@ =~= ts[0]);
            }
        }
        i = i + 1;
    }
    proof {
        assert(names.deep_view().take(n as int) =~= names.deep_view());
    }
    result.append(" > ");
    result
}

} // verus!
