use vstd::prelude::*;

verus! {

/// The pattern `p` occurs in `s` starting at character index `i`.
pub open spec fn has_sub_at(s: Seq<char>, p: Seq<char>, i: int) -> bool {
    &&& 0 <= i
    &&& i + p.len() <= s.len()
    &&& s.subrange(i, i + p.len() as int) == p
}

/// The first character index at or after `from` where `p` occurs in `s`,
/// or -1 when `p` does not occur at or after `from`.
pub open spec fn find_sub_from(s: Seq<char>, p: Seq<char>, from: int) -> int
    decreases s.len() - from,
    when 0 <= from
{
    if p.len() == 0 || from + p.len() > s.len() {
        -1
    } else if has_sub_at(s, p, from) {
        from
    } else {
        find_sub_from(s, p, from + 1)
    }
}

/// `find_sub_from` returns -1 exactly when no occurrence exists at or after
/// `from`; otherwise it returns the earliest occurrence.
pub proof fn lemma_find_sub_from(s: Seq<char>, p: Seq<char>, from: int)
    requires
        0 <= from <= s.len(),
        p.len() >= 1,
    ensures
        find_sub_from(s, p, from) == -1 ==> forall|k: int| from <= k ==> !has_sub_at(s, p, k),
        find_sub_from(s, p, from) >= 0 ==> {
            let r = find_sub_from(s, p, from);
            &&& from <= r
            &&& has_sub_at(s, p, r)
            &&& forall|k: int| from <= k < r ==> !has_sub_at(s, p, k)
        },
        find_sub_from(s, p, from) == -1 || find_sub_from(s, p, from) >= 0,
    decreases s.len() - from,
{
    if from + p.len() > s.len() {
        assert forall|k: int| from <= k implies !has_sub_at(s, p, k) by {
            assert(k + p.len() >= from + p.len());
        }
    } else if has_sub_at(s, p, from) {
    } else {
        lemma_find_sub_from(s, p, from + 1);
    }
}

/// Whitespace characters removed by key canonicalization.
pub open spec fn is_ws(c: char) -> bool {
    c == ' ' || c == '\t' || c == '\n' || c == '\r'
}

/// `s` with every whitespace character removed; the order of the remaining
/// characters is kept.
pub open spec fn strip_ws(s: Seq<char>) -> Seq<char>
    decreases s.len(),
{
    if s.len() == 0 {
        Seq::empty()
    } else {
        strip_ws(s.drop_last()) + (if is_ws(s.last()) {
            Seq::<char>::empty()
        } else {
            seq![s.last()]
        })
    }
}

/// Find the first occurrence of `needle` in `hay` at or after character
/// index `from`, counting in characters.
pub fn find_str(hay: &str, needle: &str, from: usize) -> (r: Option<usize>)
    requires
        needle@.len() >= 1,
        from <= hay@.len(),
    ensures
        match r {
            Some(i) => i as int == find_sub_from(hay@, needle@, from as int),
            None => find_sub_from(hay@, needle@, from as int) == -1,
        },
{
    let hlen = hay.unicode_len();
    let nlen = needle.unicode_len();
    if nlen > hlen {
        return None;
    }
    let mut i: usize = from;
    while i <= hlen - nlen
        invariant
            from <= i,
            i <= hlen,
            1 <= nlen <= hlen,
            hlen == hay@.len(),
            nlen == needle@.len(),
            find_sub_from(hay@, needle@, from as int) == find_sub_from(hay@, needle@, i as int),
        decreases hlen - i,
    {
        let mut k: usize = 0;
        let mut mismatch = false;
        while k < nlen && !mismatch
            invariant
                0 <= k <= nlen,
                i + nlen <= hlen,
                hlen == hay@.len(),
                nlen == needle@.len(),
                !mismatch ==> forall|j: int| 0 <= j < k ==> hay@[i + j] == needle@[j],
                mismatch ==> k < nlen && hay@[i + k] != needle@[k as int],
            decreases nlen - k + (if mismatch { 0int } else { 1int }),
        {
            if hay.get_char(i + k) != needle.get_char(k) {
                mismatch = true;
            } else {
                k = k + 1;
            }
        }
        if !mismatch {
            proof {
                assert(hay@.subrange(i as int, i + nlen as int) =~= needle@);
            }
            return Some(i);
        }
        proof {
            let sub = hay@.subrange(i as int, i + nlen as int);
            assert(sub[k as int] == hay@[i + k]);
            assert(!has_sub_at(hay@, needle@, i as int));
        }
        i = i + 1;
    }
    proof {
        assert(find_sub_from(hay@, needle@, i as int) == -1);
    }
    None
}

/// `s` with all whitespace removed, as a vector of characters.
pub fn strip_ws_chars(s: &str) -> (r: Vec<char>)
    ensures
        r@ == strip_ws(s@),
{
    let len = s.unicode_len();
    let mut r: Vec<char> = Vec::new();
    let mut i: usize = 0;
    while i < len
        invariant
            0 <= i <= len,
            len == s@.len(),
            r@ == strip_ws(s@.subrange(0, i as int)),
        decreases len - i,
    {
        let c = s.get_char(i);
        proof {
            assert(s@.subrange(0, i + 1).drop_last() =~= s@.subrange(0, i as int));
            assert(s@.subrange(0, i + 1).last() == s@[i as int]);
        }
        if !(c == ' ' || c == '\t' || c == '\n' || c == '\r') {
            r.push(c);
            proof {
                assert(r@ =~= strip_ws(s@.subrange(0, i + 1)));
            }
        } else {
            proof {
                assert(r@ =~= strip_ws(s@.subrange(0, i + 1)));
            }
        }
        i = i + 1;
    }
    proof {
        assert(s@.subrange(0, len as int) =~= s@);
    }
    r
}

/// Compare a vector of characters against a string, character by character.
pub fn chars_eq_str(v: &Vec<char>, t: &str) -> (r: bool)
    ensures
        r == (v@ == t@),
{
    let tlen = t.unicode_len();
    if v.len() != tlen {
        return false;
    }
    let mut i: usize = 0;
    while i < tlen
        invariant
            0 <= i <= tlen,
            tlen == t@.len(),
            v@.len() == tlen,
            forall|j: int| 0 <= j < i ==> v@[j] == t@[j],
        decreases tlen - i,
    {
        if v[i] != t.get_char(i) {
            return false;
        }
        i = i + 1;
    }
    proof {
        assert(v@ =~= t@);
    }
    true
}

} // verus!
