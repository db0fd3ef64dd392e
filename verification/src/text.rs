//! Character-sequence primitives the catalog is specified with:
//! codepoint-wise ordering (the ascending order every listing is returned
//! in), exact suffix matching, and the safe-filename predicate that keeps
//! content retrieval inside the sandbox.

use vstd::prelude::*;
use vstd::string::StrSliceExecFns;

verus! {

/// Codepoint-wise "less than or equal" on character sequences.
/// This is the ascending order of every cataloged listing: no
/// locale-aware collation, so uppercase sorts before lowercase.
pub open spec fn lex_leq(a: Seq<char>, b: Seq<char>) -> bool
    decreases a.len(),
{
    if a.len() == 0 {
        true
    } else if b.len() == 0 {
        false
    } else if a[0] as u32 == b[0] as u32 {
        lex_leq(a.drop_first(), b.drop_first())
    } else {
        (a[0] as u32) < (b[0] as u32)
    }
}

/// The ordering is reflexive.
pub proof fn lemma_lex_leq_reflexive(a: Seq<char>)
    ensures
        lex_leq(a, a),
    decreases a.len(),
{
    if a.len() > 0 {
        lemma_lex_leq_reflexive(a.drop_first());
    }
}

/// Any two character sequences are comparable.
pub proof fn lemma_lex_leq_total(a: Seq<char>, b: Seq<char>)
    ensures
        lex_leq(a, b) || lex_leq(b, a),
    decreases a.len(),
{
    if a.len() > 0 && b.len() > 0 && a[0] as u32 == b[0] as u32 {
        lemma_lex_leq_total(a.drop_first(), b.drop_first());
    }
}

/// The ordering is transitive.
pub proof fn lemma_lex_leq_transitive(a: Seq<char>, b: Seq<char>, c: Seq<char>)
    requires
        lex_leq(a, b),
        lex_leq(b, c),
    ensures
        lex_leq(a, c),
    decreases a.len(),
{
    if a.len() > 0 && b.len() > 0 && c.len() > 0 && a[0] as u32 == b[0] as u32 && b[0] as u32
        == c[0] as u32 {
        lemma_lex_leq_transitive(a.drop_first(), b.drop_first(), c.drop_first());
    }
}

/// Compares two strings in the catalog's sort order.
pub fn str_lex_leq(a: &str, b: &str) -> (r: bool)
    ensures
        r == lex_leq(a@, b@),
{
    let a_len = a.unicode_len();
    let b_len = b.unicode_len();
    let mut i: usize = 0;
    proof {
        assert(a@.skip(0) =~= a@);
        assert(b@.skip(0) =~= b@);
    }
    loop
        invariant
            i <= a_len,
            i <= b_len,
            a_len == a@.len(),
            b_len == b@.len(),
            lex_leq(a@, b@) == lex_leq(a@.skip(i as int), b@.skip(i as int)),
        decreases a_len - i,
    {
        if i == a_len {
            proof {
                assert(a@.skip(i as int).len() == 0);
            }
            return true;
        }
        if i == b_len {
            proof {
                assert(b@.skip(i as int).len() == 0);
                assert(a@.skip(i as int).len() > 0);
            }
            return false;
        }
        let ca = a.get_char(i);
        let cb = b.get_char(i);
        proof {
            assert(a@.skip(i as int)[0] == a@[i as int]);
            assert(b@.skip(i as int)[0] == b@[i as int]);
        }
        if ca as u32 != cb as u32 {
            return (ca as u32) < (cb as u32);
        }
        proof {
            assert(a@.skip(i as int).drop_first() =~= a@.skip(i + 1 as int));
            assert(b@.skip(i as int).drop_first() =~= b@.skip(i + 1 as int));
        }
        i = i + 1;
    }
}

/// Exact, case-sensitive suffix match: the name's final characters are
/// the suffix, character for character.
pub open spec fn suffix_matches(name: Seq<char>, suffix: Seq<char>) -> bool {
    &&& suffix.len() <= name.len()
    &&& name.subrange(name.len() - suffix.len(), name.len() as int) == suffix
}

/// Decides whether a file name carries the required suffix.
pub fn str_has_suffix(name: &str, suffix: &str) -> (r: bool)
    ensures
        r == suffix_matches(name@, suffix@),
{
    let n = name.unicode_len();
    let m = suffix.unicode_len();
    if m > n {
        return false;
    }
    let off = n - m;
    let mut j: usize = 0;
    loop
        invariant
            j <= m,
            m <= n,
            n == name@.len(),
            m == suffix@.len(),
            off == n - m,
            forall|k: int| 0 <= k < j ==> name@[off + k] == suffix@[k],
        decreases m - j,
    {
        if j == m {
            proof {
                assert(name@.subrange(off as int, n as int) =~= suffix@);
            }
            return true;
        }
        let cn = name.get_char(off + j);
        let cs = suffix.get_char(j);
        if cn as u32 != cs as u32 {
            proof {
                assert(name@.subrange(off as int, n as int)[j as int] == name@[off + j]);
            }
            return false;
        }
        j = j + 1;
    }
}

/// A file name that content retrieval may resolve against the sandbox
/// root: non-empty, free of path separators, and not a relative
/// directory reference, so joining it to the root cannot escape it.
pub open spec fn safe_name(name: Seq<char>) -> bool {
    &&& name.len() > 0
    &&& !name.contains('/')
    &&& !name.contains('\\')
    &&& name != seq!['.']
    &&& name != seq!['.', '.']
}

/// Decides whether a requested file name stays within the sandbox.
pub fn filename_is_safe(name: &str) -> (r: bool)
    ensures
        r == safe_name(name@),
{
    let n = name.unicode_len();
    if n == 0 {
        return false;
    }
    let mut i: usize = 0;
    loop
        invariant
            i <= n,
            n == name@.len(),
            forall|k: int| 0 <= k < i ==> name@[k] != '/' && name@[k] != '\\',
        ensures
            forall|k: int| 0 <= k < name@.len() ==> name@[k] != '/' && name@[k] != '\\',
        decreases n - i,
    {
        if i == n {
            break;
        }
        let c = name.get_char(i);
        if c == '/' || c == '\\' {
            proof {
                assert(name@[i as int] == c);
                assert(name@.contains(c));
            }
            return false;
        }
        i = i + 1;
    }
    proof {
        if name@.contains('/') {
            let k = choose|k: int| 0 <= k < name@.len() && name@[k] == '/';
            assert(name@[k] != '/');
        }
        if name@.contains('\\') {
            let k = choose|k: int| 0 <= k < name@.len() && name@[k] == '\\';
            assert(name@[k] != '\\');
        }
    }
    if n == 1 {
        let c0 = name.get_char(0);
        if c0 == '.' {
            proof {
                assert(name@ =~= seq!['.']);
            }
            return false;
        }
        proof {
            if name@ == seq!['.'] {
                assert(name@[0] == '.');
            }
        }
        return true;
    }
    if n == 2 {
        let c0 = name.get_char(0);
        let c1 = name.get_char(1);
        if c0 == '.' && c1 == '.' {
            proof {
                assert(name@ =~= seq!['.', '.']);
            }
            return false;
        }
        proof {
            if name@ == seq!['.', '.'] {
                assert(name@[0] == '.');
                assert(name@[1] == '.');
            }
        }
        return true;
    }
    true
}

} // verus!
