use vstd::prelude::*;
use vstd::string::{StrSliceExecFns, StringExecFns};

use crate::errors::PlanError;

verus! {

/// Index of the first occurrence of `c` in `s`, or -1 when absent.
pub open spec fn first_index_of(s: Seq<char>, c: char) -> int
    decreases s.len(),
{
    if s.len() == 0 {
        -1
    } else if s[0] == c {
        0
    } else {
        let r = first_index_of(s.drop_first(), c);
        if r < 0 {
            -1
        } else {
            r + 1
        }
    }
}

/// How many times `c` occurs in `s`.
pub open spec fn count_of(s: Seq<char>, c: char) -> int
    decreases s.len(),
{
    if s.len() == 0 {
        0
    } else {
        count_of(s.drop_last(), c) + (if s.last() == c {
            1int
        } else {
            0
        })
    }
}

/// The file stem: everything before the first dot, or the whole name when
/// it has none.
pub open spec fn stem_of(s: Seq<char>) -> Seq<char> {
    if first_index_of(s, '.') < 0 {
        s
    } else {
        s.take(first_index_of(s, '.'))
    }
}

proof fn lemma_first_index_at(s: Seq<char>, c: char, i: int)
    requires
        0 <= i < s.len(),
        s[i] == c,
        forall|j: int| 0 <= j < i ==> s[j] != c,
    ensures
        first_index_of(s, c) == i,
    decreases i,
{
    if i > 0 {
        assert(forall|j: int| 0 <= j < i - 1 ==> s.drop_first()[j] == s[j + 1]);
        assert(s.drop_first()[i - 1] == s[i]);
        lemma_first_index_at(s.drop_first(), c, i - 1);
    }
}

proof fn lemma_first_index_none(s: Seq<char>, c: char)
    requires
        forall|j: int| 0 <= j < s.len() ==> s[j] != c,
    ensures
        first_index_of(s, c) == -1,
    decreases s.len(),
{
    if s.len() > 0 {
        assert(forall|j: int|
            0 <= j < s.drop_first().len() ==> s.drop_first()[j] == s[j + 1]);
        lemma_first_index_none(s.drop_first(), c);
    }
}

proof fn lemma_count_take_succ(s: Seq<char>, j: int, c: char)
    requires
        0 <= j < s.len(),
    ensures
        count_of(s.take(j + 1), c) == count_of(s.take(j), c) + (if s[j] == c {
            1int
        } else {
            0
        }),
        count_of(s.take(j), c) >= 0,
    decreases j,
{
    assert(s.take(j + 1).drop_last() =~= s.take(j));
    assert(s.take(j + 1).last() == s[j]);
    if j > 0 {
        lemma_count_take_succ(s, j - 1, c);
    } else {
        assert(s.take(0) =~= Seq::<char>::empty());
    }
}

/// Splits a source file name into its two underscore-separated parts. The
/// stem before the first dot must hold exactly one underscore; any other
/// shape is a malformed identifier.
pub fn parse_source_identifier(file_name: &str) -> (r: Result<(String, String), PlanError>)
    ensures
        r is Ok <==> count_of(stem_of(file_name@), '_') == 1,
        r matches Ok(p) ==> {
            let stem = stem_of(file_name@);
            let u = first_index_of(stem, '_');
            0 <= u < stem.len() && p.0@ == stem.take(u) && p.1@ == stem.skip(u + 1)
        },
        r matches Err(e) ==> (e matches PlanError::MalformedSourceIdentifier(n) && n@
            == file_name@),
{
    let n = file_name.unicode_len();
    let mut dot: usize = n;
    let mut i: usize = 0;
    while i < n
        invariant_except_break
            dot == n,
        invariant
            i <= n,
            n == file_name@.len(),
            forall|j: int| 0 <= j < i ==> file_name@[j] != '.',
        ensures
            dot <= n,
            dot == n ==> forall|j: int| 0 <= j < n ==> file_name@[j] != '.',
            dot < n ==> file_name@[dot as int] == '.' && (forall|j: int|
                0 <= j < dot ==> file_name@[j] != '.'),
        decreases n - i,
    {
        if file_name.get_char(i) == '.' {
            dot = i;
            break ;
        }
        i = i + 1;
    }
    proof {
        if dot == n {
            lemma_first_index_none(file_name@, '.');
            assert(file_name@.take(n as int) =~= file_name@);
        } else {
            lemma_first_index_at(file_name@, '.', dot as int);
        }
    }
    let stem = file_name.substring_char(0, dot);
    proof {
        assert(stem@ =~= stem_of(file_name@));
    }
    let m = stem.unicode_len();
    let mut cnt: usize = 0;
    let mut upos: usize = 0;
    let mut j: usize = 0;
    proof {
        assert(stem@.take(0) =~= Seq::<char>::empty());
    }
    while j < m
        invariant
            j <= m,
            m == stem@.len(),
            stem@ == stem_of(file_name@),
            cnt <= j,
            cnt as int == count_of(stem@.take(j as int), '_'),
            cnt > 0 ==> upos < j && stem@[upos as int] == '_' && (forall|x: int|
                0 <= x < upos ==> stem@[x] != '_'),
            cnt == 0 ==> forall|x: int| 0 <= x < j ==> stem@[x] != '_',
        decreases m - j,
    {
        proof {
            lemma_count_take_succ(stem@, j as int, '_');
        }
        if stem.get_char(j) == '_' {
            if cnt == 0 {
                upos = j;
            }
            cnt = cnt + 1;
        }
        j = j + 1;
    }
    proof {
        assert(stem@.take(m as int) =~= stem@);
    }
    if cnt != 1 {
        return Err(PlanError::MalformedSourceIdentifier(String::from_str(file_name)));
    }
    proof {
        lemma_first_index_at(stem@, '_', upos as int);
    }
    let left = stem.substring_char(0, upos);
    let right = stem.substring_char(upos + 1, m);
    proof {
        assert(left@ =~= stem@.take(upos as int));
        assert(right@ =~= stem@.skip(upos as int + 1));
    }
    Ok((String::from_str(left), String::from_str(right)))
}

} // verus!
