use vstd::prelude::*;

use crate::metadata::{Metadata, MetaView};
use crate::text::{find_str, find_sub_from, has_sub_at, lemma_find_sub_from};

verus! {

/// `s` contains a parenthesized substring: a '(' with a ')' after it.
pub open spec fn paren_match(s: Seq<char>) -> bool {
    exists|i: int, j: int| 0 <= i < j < s.len() && s[i] == '(' && s[j] == ')'
}

/// The label between the first '(' of `s` and the first ')' after it.
pub open spec fn paren_capture(s: Seq<char>) -> Seq<char> {
    let i = find_sub_from(s, seq!['('], 0);
    let j = find_sub_from(s, seq![')'], i + 1);
    s.subrange(i + 1, j)
}

/// `s` names a printer driver: it contains "PScript" and, at or after the
/// end of that occurrence, ".dll" (both case-sensitive).
pub open spec fn pscript_dll(s: Seq<char>) -> bool {
    exists|i: int, j: int| has_sub_at(s, "PScript"@, i) && i + 7 <= j && has_sub_at(s, ".dll"@, j)
}

/// The inferred operating system of a completed record: the parenthesized
/// part of the producer when there is one; else "Windows" when the creator
/// tool names a PScript printer driver; else nothing.
pub open spec fn spec_get_os(m: MetaView) -> Option<Seq<char>> {
    if m.producer is Some && paren_match(m.producer->0) {
        Some(paren_capture(m.producer->0))
    } else if m.creator_tool is Some && pscript_dll(m.creator_tool->0) {
        Some("Windows"@)
    } else {
        None
    }
}

/// Best-effort inference of the operating system a record's file was made
/// on. Absence of a match is a normal, silent outcome, never an error.
pub fn get_os(meta: &Metadata) -> (r: Option<String>)
    ensures
        match r {
            Some(l) => spec_get_os(meta@) == Some(l@),
            None => spec_get_os(meta@) is None,
        },
{
    proof {
        reveal_strlit("(");
        reveal_strlit(")");
        assert("("@ =~= seq!['(']);
        assert(")"@ =~= seq![')']);
    }
    if let Some(producer) = &meta.producer {
        let p: &str = producer.as_str();
        let _plen = p.unicode_len();
        match find_str(p, "(", 0) {
            Some(i) => {
                proof {
                    lemma_find_sub_from(p@, seq!['('], 0);
                }
                match find_str(p, ")", i + 1) {
                    Some(j) => {
                        proof {
                            lemma_find_sub_from(p@, seq![')'], i + 1);
                            assert(p@.subrange(i as int, i + 1)[0] == p@[i as int]);
                            assert(p@.subrange(j as int, j + 1)[0] == p@[j as int]);
                            assert(p@[i as int] == '(' && p@[j as int] == ')');
                            assert(paren_match(p@));
                        }
                        let cap = p.substring_char(i + 1, j).to_owned();
                        return Some(cap);
                    },
                    None => {
                        proof {
                            lemma_find_sub_from(p@, seq![')'], i + 1);
                            assert(!paren_match(p@)) by {
                                if paren_match(p@) {
                                    let (a, b) = choose|a: int, b: int|
                                        0 <= a < b < p@.len() && p@[a] == '(' && p@[b] == ')';
                                    assert(p@.subrange(a, a + 1) =~= seq!['(']);
                                    assert(has_sub_at(p@, seq!['('], a));
                                    assert(a >= i);
                                    assert(p@.subrange(b, b + 1) =~= seq![')']);
                                    assert(has_sub_at(p@, seq![')'], b));
                                    assert(b >= i + 1);
                                    assert(false);
                                }
                            }
                        }
                    },
                }
            },
            None => {
                proof {
                    lemma_find_sub_from(p@, seq!['('], 0);
                    assert(!paren_match(p@)) by {
                        if paren_match(p@) {
                            let (a, b) = choose|a: int, b: int|
                                0 <= a < b < p@.len() && p@[a] == '(' && p@[b] == ')';
                            assert(p@.subrange(a, a + 1) =~= seq!['(']);
                            assert(has_sub_at(p@, seq!['('], a));
                            assert(false);
                        }
                    }
                }
            },
        }
    }
    if let Some(creator_tool) = &meta.creator_tool {
        let c: &str = creator_tool.as_str();
        let _clen = c.unicode_len();
        proof {
            reveal_strlit("PScript");
            reveal_strlit(".dll");
        }
        match find_str(c, "PScript", 0) {
            Some(i) => {
                proof {
                    lemma_find_sub_from(c@, "PScript"@, 0);
                }
                match find_str(c, ".dll", i + 7) {
                    Some(_j) => {
                        proof {
                            lemma_find_sub_from(c@, ".dll"@, i + 7);
                            assert(pscript_dll(c@));
                        }
                        let label = "Windows".to_owned();
                        return Some(label);
                    },
                    None => {
                        proof {
                            lemma_find_sub_from(c@, ".dll"@, i + 7);
                            assert(!pscript_dll(c@)) by {
                                if pscript_dll(c@) {
                                    let (a, b) = choose|a: int, b: int|
                                        has_sub_at(c@, "PScript"@, a) && a + 7 <= b && has_sub_at(
                                            c@,
                                            ".dll"@,
                                            b,
                                        );
                                    assert(a >= i);
                                    assert(b >= i + 7);
                                    assert(false);
                                }
                            }
                        }
                    },
                }
            },
            None => {
                proof {
                    lemma_find_sub_from(c@, "PScript"@, 0);
                    assert(!pscript_dll(c@)) by {
                        if pscript_dll(c@) {
                            let (a, b) = choose|a: int, b: int|
                                has_sub_at(c@, "PScript"@, a) && a + 7 <= b && has_sub_at(
                                    c@,
                                    ".dll"@,
                                    b,
                                );
                            assert(false);
                        }
                    }
                }
            },
        }
    }
    None
}

} // verus!
