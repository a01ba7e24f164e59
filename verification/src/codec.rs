//! Interchange form for the library's values: a flat, self-describing token
//! stream with tagged-union discriminators, mirroring the script model. The
//! decoder recovers exactly the value the encoder was given.

use vstd::prelude::*;

use crate::secure_storage::CredentialEntry;
use crate::secure_storage::SpecCredentialEntry;

verus! {

/// One token of the interchange stream.
#[derive(Debug, PartialEq, Eq)]
pub enum Token {
    U(u64),
    I(i64),
    S(String),
}

/// Mathematical value of a [`Token`]. Numbers widen to unbounded integers,
/// so a spec-level encoding never wraps.
pub enum SpecToken {
    U(nat),
    I(int),
    S(Seq<char>),
}

impl View for Token {
    type V = SpecToken;

    open spec fn view(&self) -> SpecToken {
        match self {
            Token::U(x) => SpecToken::U(*x as nat),
            Token::I(x) => SpecToken::I(*x as int),
            Token::S(s) => SpecToken::S(s@),
        }
    }
}

impl Clone for Token {
    /// Value-preserving copy: the copy has the same mathematical value.
    fn clone(&self) -> (r: Token)
        ensures
            r@ == self@,
    {
        match self {
            Token::U(x) => Token::U(*x),
            Token::I(x) => Token::I(*x),
            Token::S(s) => Token::S(s.clone()),
        }
    }
}

/// Element-wise view of a token stream.
pub open spec fn toks_view(ts: Seq<Token>) -> Seq<SpecToken> {
    Seq::new(ts.len(), |i: int| ts[i]@)
}

/// The stream `tv` carries exactly the tokens `enc` starting at `i`.
pub open spec fn has_at(tv: Seq<SpecToken>, i: int, enc: Seq<SpecToken>) -> bool {
    &&& 0 <= i
    &&& i + enc.len() <= tv.len()
    &&& tv.subrange(i, i + enc.len()) == enc
}

/// A stream that carries a concatenation carries both parts in place.
proof fn lemma_has_at_split(tv: Seq<SpecToken>, i: int, a: Seq<SpecToken>, b: Seq<SpecToken>)
    requires
        has_at(tv, i, a + b),
    ensures
        has_at(tv, i, a),
        has_at(tv, i + a.len(), b),
{
    assert forall|j: int| 0 <= j < a.len() implies tv.subrange(i, i + a.len())[j] == a[j] by {
        assert(tv.subrange(i, i + a.len())[j] == tv[i + j]);
        assert(tv.subrange(i, i + (a + b).len())[j] == tv[i + j]);
        assert((a + b)[j] == a[j]);
    }
    assert(tv.subrange(i, i + a.len()) =~= a);
    assert forall|j: int|
        0 <= j < b.len() implies tv.subrange(i + a.len(), i + a.len() + b.len())[j] == b[j] by {
        assert(tv.subrange(i + a.len(), i + a.len() + b.len())[j] == tv[i + a.len() + j]);
        assert(tv.subrange(i, i + (a + b).len())[a.len() + j] == tv[i + a.len() + j]);
        assert((a + b)[a.len() + j] == b[j]);
    }
    assert(tv.subrange(i + a.len(), i + a.len() + b.len()) =~= b);
}

/// Tokens of a target platform kind.
pub open spec fn enc_kind(k: crate::types::TargetAppKind) -> Seq<SpecToken> {
    match k {
        crate::types::TargetAppKind::Web => seq![SpecToken::U(0)],
        crate::types::TargetAppKind::Android => seq![SpecToken::U(1)],
    }
}

/// Tokens of a selector: a variant tag, then its payload.
pub open spec fn enc_selector(s: crate::types::SpecSelector) -> Seq<SpecToken> {
    match s {
        crate::types::SpecSelector::Css(t) => seq![SpecToken::U(0), SpecToken::S(t)],
        crate::types::SpecSelector::XPath(t) => seq![SpecToken::U(1), SpecToken::S(t)],
        crate::types::SpecSelector::AccessibilityId(t) => seq![SpecToken::U(2), SpecToken::S(t)],
        crate::types::SpecSelector::Image(t) => seq![SpecToken::U(3), SpecToken::S(t)],
        crate::types::SpecSelector::Coordinates { x, y } => seq![
            SpecToken::U(4),
            SpecToken::I(x as int),
            SpecToken::I(y as int),
        ],
    }
}

/// Tokens of a value reference: a variant tag, then the string.
pub open spec fn enc_vref(v: crate::types::SpecValueRef) -> Seq<SpecToken> {
    match v {
        crate::types::SpecValueRef::Literal(t) => seq![SpecToken::U(0), SpecToken::S(t)],
        crate::types::SpecValueRef::FromVault(t) => seq![SpecToken::U(1), SpecToken::S(t)],
    }
}

/// Append a selector's tokens to `out`.
fn push_selector(out: &mut Vec<Token>, s: &crate::types::Selector)
    ensures
        toks_view(final(out)@) == toks_view(old(out)@) + enc_selector(s@),
{
    match s {
        crate::types::Selector::Css(t) => {
            out.push(Token::U(0));
            out.push(Token::S(t.clone()));
        },
        crate::types::Selector::XPath(t) => {
            out.push(Token::U(1));
            out.push(Token::S(t.clone()));
        },
        crate::types::Selector::AccessibilityId(t) => {
            out.push(Token::U(2));
            out.push(Token::S(t.clone()));
        },
        crate::types::Selector::Image(t) => {
            out.push(Token::U(3));
            out.push(Token::S(t.clone()));
        },
        crate::types::Selector::Coordinates { x, y } => {
            out.push(Token::U(4));
            out.push(Token::I(*x as i64));
            out.push(Token::I(*y as i64));
        },
    }
    proof {
        assert(toks_view(out@) =~= toks_view(old(out)@) + enc_selector(s@));
    }
}

/// Append a value reference's tokens to `out`.
fn push_vref(out: &mut Vec<Token>, v: &crate::types::ValueRef)
    ensures
        toks_view(final(out)@) == toks_view(old(out)@) + enc_vref(v@),
{
    match v {
        crate::types::ValueRef::Literal(t) => {
            out.push(Token::U(0));
            out.push(Token::S(t.clone()));
        },
        crate::types::ValueRef::FromVault(t) => {
            out.push(Token::U(1));
            out.push(Token::S(t.clone()));
        },
    }
    proof {
        assert(toks_view(out@) =~= toks_view(old(out)@) + enc_vref(v@));
    }
}

/// Read a selector at `i`; yields the value and the next position.
fn dec_selector(tokens: &Vec<Token>, i: usize) -> (r: Option<(crate::types::Selector, usize)>)
    ensures
        r matches Some(out) ==> i < out.1 <= tokens@.len(),
        forall|s: crate::types::SpecSelector|
            has_at(toks_view(tokens@), i as int, #[trigger] enc_selector(s)) ==> (r matches Some(
                out,
            ) && out.0@ == s && out.1 == i + enc_selector(s).len()),
{
    let r: Option<(crate::types::Selector, usize)> = if i < tokens.len() {
        match &tokens[i] {
            Token::U(tag) => {
                if *tag <= 3 && i + 1 < tokens.len() {
                    match &tokens[i + 1] {
                        Token::S(t) => {
                            let sel = if *tag == 0 {
                                crate::types::Selector::Css(t.clone())
                            } else if *tag == 1 {
                                crate::types::Selector::XPath(t.clone())
                            } else if *tag == 2 {
                                crate::types::Selector::AccessibilityId(t.clone())
                            } else {
                                crate::types::Selector::Image(t.clone())
                            };
                            Some((sel, i + 2))
                        },
                        _ => None,
                    }
                } else if *tag == 4 && i + 1 < tokens.len() && i + 2 < tokens.len() {
                    match (&tokens[i + 1], &tokens[i + 2]) {
                        (Token::I(x), Token::I(y)) => {
                            if i32::MIN as i64 <= *x && *x <= i32::MAX as i64 && i32::MIN as i64
                                <= *y && *y <= i32::MAX as i64 {
                                Some(
                                    (
                                        crate::types::Selector::Coordinates {
                                            x: *x as i32,
                                            y: *y as i32,
                                        },
                                        i + 3,
                                    ),
                                )
                            } else {
                                None
                            }
                        },
                        _ => None,
                    }
                } else {
                    None
                }
            },
            _ => None,
        }
    } else {
        None
    };
    proof {
        let tv = toks_view(tokens@);
        assert forall|s: crate::types::SpecSelector|
            has_at(tv, i as int, #[trigger] enc_selector(s)) implies (r matches Some(out) && out.0@
            == s && out.1 == i + enc_selector(s).len()) by {
            let enc = enc_selector(s);
            assert forall|j: int| 0 <= j < enc.len() implies tv[i + j] == enc[j] by {
                assert(tv.subrange(i as int, i + enc.len())[j] == tv[i + j]);
            }
            match s {
                crate::types::SpecSelector::Css(t) => {
                    assert(tv[i as int] == SpecToken::U(0) && tv[i + 1] == SpecToken::S(t));
                },
                crate::types::SpecSelector::XPath(t) => {
                    assert(tv[i as int] == SpecToken::U(1) && tv[i + 1] == SpecToken::S(t));
                },
                crate::types::SpecSelector::AccessibilityId(t) => {
                    assert(tv[i as int] == SpecToken::U(2) && tv[i + 1] == SpecToken::S(t));
                },
                crate::types::SpecSelector::Image(t) => {
                    assert(tv[i as int] == SpecToken::U(3) && tv[i + 1] == SpecToken::S(t));
                },
                crate::types::SpecSelector::Coordinates { x, y } => {
                    assert(tv[i as int] == SpecToken::U(4) && tv[i + 1] == SpecToken::I(x as int)
                        && tv[i + 2] == SpecToken::I(y as int));
                },
            }
        }
    }
    r
}

/// Read a value reference at `i`; yields the value and the next position.
fn dec_vref(tokens: &Vec<Token>, i: usize) -> (r: Option<(crate::types::ValueRef, usize)>)
    ensures
        r matches Some(out) ==> i < out.1 <= tokens@.len(),
        forall|v: crate::types::SpecValueRef|
            has_at(toks_view(tokens@), i as int, #[trigger] enc_vref(v)) ==> (r matches Some(out)
                && out.0@ == v && out.1 == i + enc_vref(v).len()),
{
    let r: Option<(crate::types::ValueRef, usize)> = if i < tokens.len() && i + 1 < tokens.len() {
        match (&tokens[i], &tokens[i + 1]) {
            (Token::U(tag), Token::S(t)) => {
                if *tag == 0 {
                    Some((crate::types::ValueRef::Literal(t.clone()), i + 2))
                } else if *tag == 1 {
                    Some((crate::types::ValueRef::FromVault(t.clone()), i + 2))
                } else {
                    None
                }
            },
            _ => None,
        }
    } else {
        None
    };
    proof {
        let tv = toks_view(tokens@);
        assert forall|v: crate::types::SpecValueRef|
            has_at(tv, i as int, #[trigger] enc_vref(v)) implies (r matches Some(out) && out.0@ == v
            && out.1 == i + enc_vref(v).len()) by {
            let enc = enc_vref(v);
            assert forall|j: int| 0 <= j < enc.len() implies tv[i + j] == enc[j] by {
                assert(tv.subrange(i as int, i + enc.len())[j] == tv[i + j]);
            }
            match v {
                crate::types::SpecValueRef::Literal(t) => {
                    assert(tv[i as int] == SpecToken::U(0) && tv[i + 1] == SpecToken::S(t));
                },
                crate::types::SpecValueRef::FromVault(t) => {
                    assert(tv[i as int] == SpecToken::U(1) && tv[i + 1] == SpecToken::S(t));
                },
            }
        }
    }
    r
}

/// A stream carries one token of a singleton encoding in place.
proof fn lemma_has_at_index(tv: Seq<SpecToken>, i: int, enc: Seq<SpecToken>, j: int)
    requires
        has_at(tv, i, enc),
        0 <= j < enc.len(),
    ensures
        tv[i + j] == enc[j],
{
    assert(tv.subrange(i, i + enc.len())[j] == tv[i + j]);
}

/// Tokens of a condition: a variant tag, then its payloads; combinator
/// operand lists carry their length first.
pub open spec fn enc_cond(c: crate::types::SpecCondition) -> Seq<SpecToken>
    decreases c, 0nat,
{
    match c {
        crate::types::SpecCondition::Exists(sel) => seq![SpecToken::U(0)] + enc_selector(sel),
        crate::types::SpecCondition::TextEquals { selector, expected } => seq![SpecToken::U(1)]
            + enc_selector(selector) + seq![SpecToken::S(expected)],
        crate::types::SpecCondition::And(cs) => seq![SpecToken::U(2), SpecToken::U(cs.len())]
            + enc_cond_items(cs),
        crate::types::SpecCondition::Or(cs) => seq![SpecToken::U(3), SpecToken::U(cs.len())]
            + enc_cond_items(cs),
        crate::types::SpecCondition::Not(inner) => seq![SpecToken::U(4)] + enc_cond(*inner),
    }
}

/// Tokens of a condition list, one condition after the other.
pub open spec fn enc_cond_items(cs: Seq<crate::types::SpecCondition>) -> Seq<SpecToken>
    decreases cs, 1nat,
{
    if cs.len() == 0 {
        Seq::<SpecToken>::empty()
    } else {
        enc_cond(cs[0]) + enc_cond_items(cs.subrange(1, cs.len() as int))
    }
}

/// Append a condition's tokens to `out`.
#[verifier::loop_isolation(false)]
fn push_cond(out: &mut Vec<Token>, c: &crate::types::Condition)
    ensures
        toks_view(final(out)@) == toks_view(old(out)@) + enc_cond(c@),
    decreases *c, 0nat,
{
    match c {
        crate::types::Condition::Exists(sel) => {
            out.push(Token::U(0));
            push_selector(out, sel);
            proof {
                assert(toks_view(out@) =~= toks_view(old(out)@) + enc_cond(c@));
            }
        },
        crate::types::Condition::TextEquals { selector, expected } => {
            out.push(Token::U(1));
            push_selector(out, selector);
            let ghost mid = toks_view(out@);
            out.push(Token::S(expected.clone()));
            proof {
                assert(mid =~= toks_view(old(out)@) + (seq![SpecToken::U(1)] + enc_selector(
                    selector@,
                )));
                assert(toks_view(out@) =~= mid + seq![SpecToken::S(expected@)]);
                assert(toks_view(out@) =~= toks_view(old(out)@) + enc_cond(c@));
            }
        },
        crate::types::Condition::And(cs) => {
            out.push(Token::U(2));
            out.push(Token::U(cs.len() as u64));
            let ghost mid = toks_view(out@);
            proof {
                crate::types::lemma_conds_view(cs@);
                assert(cs.len() as u64 as nat == cs@.len());
                assert(mid =~= toks_view(old(out)@) + seq![
                    SpecToken::U(2),
                    SpecToken::U(cs@.len()),
                ]);
                assert(*c == crate::types::Condition::And(*cs));
                assert(decreases_to!(*c => *cs));
                assert(decreases_to!(*cs => cs@));
            }
            push_cond_items(out, cs);
            proof {
                assert(toks_view(out@) =~= toks_view(old(out)@) + enc_cond(c@));
            }
        },
        crate::types::Condition::Or(cs) => {
            out.push(Token::U(3));
            out.push(Token::U(cs.len() as u64));
            let ghost mid = toks_view(out@);
            proof {
                crate::types::lemma_conds_view(cs@);
                assert(cs.len() as u64 as nat == cs@.len());
                assert(mid =~= toks_view(old(out)@) + seq![
                    SpecToken::U(3),
                    SpecToken::U(cs@.len()),
                ]);
                assert(*c == crate::types::Condition::Or(*cs));
                assert(decreases_to!(*c => *cs));
                assert(decreases_to!(*cs => cs@));
            }
            push_cond_items(out, cs);
            proof {
                assert(toks_view(out@) =~= toks_view(old(out)@) + enc_cond(c@));
            }
        },
        crate::types::Condition::Not(inner) => {
            out.push(Token::U(4));
            push_cond(out, &**inner);
            proof {
                assert(toks_view(out@) =~= toks_view(old(out)@) + enc_cond(c@));
            }
        },
    }
}

/// Append a condition list's tokens to `out`, first to last.
#[verifier::loop_isolation(false)]
fn push_cond_items(out: &mut Vec<Token>, cs: &Vec<crate::types::Condition>)
    ensures
        toks_view(final(out)@) == toks_view(old(out)@) + enc_cond_items(
            crate::types::conds_view(cs@),
        ),
    decreases cs@, 1nat,
{
    let ghost whole = crate::types::conds_view(cs@);
    let ghost base = toks_view(old(out)@);
    proof {
        crate::types::lemma_conds_view(cs@);
        assert(whole.subrange(0, whole.len() as int) =~= whole);
        assert(base + Seq::<SpecToken>::empty() =~= base);
    }
    let ghost mut ev: Seq<SpecToken> = Seq::empty();
    let mut i: usize = 0;
    while i < cs.len()
        invariant
            i <= cs.len(),
            toks_view(out@) == base + ev,
            enc_cond_items(whole) == ev + enc_cond_items(
                whole.subrange(i as int, whole.len() as int),
            ),
        decreases cs@.len() - i,
    {
        let ghost rem = whole.subrange(i as int, whole.len() as int);
        proof {
            assert(rem[0] == whole[i as int]);
            assert(rem.subrange(1, rem.len() as int) =~= whole.subrange(
                i + 1 as int,
                whole.len() as int,
            ));
        }
        push_cond(out, &cs[i]);
        proof {
            let item = enc_cond(whole[i as int]);
            assert((base + ev) + item =~= base + (ev + item));
            assert((ev + item) + enc_cond_items(
                whole.subrange(i + 1 as int, whole.len() as int),
            ) =~= ev + (item + enc_cond_items(whole.subrange(i + 1 as int, whole.len() as int))));
            ev = ev + item;
        }
        i += 1;
    }
    proof {
        assert(whole.subrange(cs@.len() as int, whole.len() as int) =~= Seq::<
            crate::types::SpecCondition,
        >::empty());
        assert(ev + Seq::<SpecToken>::empty() =~= ev);
    }
}

/// Read a condition at `i`; yields the value and the next position.
fn dec_cond(tokens: &Vec<Token>, i: usize) -> (r: Option<(crate::types::Condition, usize)>)
    ensures
        r matches Some(out) ==> i < out.1 <= tokens@.len(),
        forall|c: crate::types::SpecCondition|
            has_at(toks_view(tokens@), i as int, #[trigger] enc_cond(c)) ==> (r matches Some(out)
                && out.0@ == c && out.1 == i + enc_cond(c).len()),
    decreases tokens@.len() - i, 0nat,
{
    let ghost tv = toks_view(tokens@);
    if i >= tokens.len() {
        return None;
    }
    match &tokens[i] {
        Token::U(tag) => {
            if *tag == 0 {
                let sub = dec_selector(tokens, i + 1);
                let r: Option<(crate::types::Condition, usize)> = match sub {
                    Some((sel, j)) => Some((crate::types::Condition::Exists(sel), j)),
                    None => None,
                };
                proof {
                    assert forall|c: crate::types::SpecCondition|
                        has_at(tv, i as int, #[trigger] enc_cond(c)) implies (r matches Some(out)
                        && out.0@ == c && out.1 == i + enc_cond(c).len()) by {
                        lemma_has_at_index(tv, i as int, enc_cond(c), 0);
                        match c {
                            crate::types::SpecCondition::Exists(sel) => {
                                lemma_has_at_split(
                                    tv,
                                    i as int,
                                    seq![SpecToken::U(0)],
                                    enc_selector(sel),
                                );
                            },
                            _ => {},
                        }
                    }
                }
                r
            } else if *tag == 1 {
                let sub = dec_selector(tokens, i + 1);
                let r: Option<(crate::types::Condition, usize)> = match sub {
                    Some((sel, j)) => {
                        if j < tokens.len() {
                            match &tokens[j] {
                                Token::S(t) => Some(
                                    (
                                        crate::types::Condition::TextEquals {
                                            selector: sel,
                                            expected: t.clone(),
                                        },
                                        j + 1,
                                    ),
                                ),
                                _ => None,
                            }
                        } else {
                            None
                        }
                    },
                    None => None,
                };
                proof {
                    assert forall|c: crate::types::SpecCondition|
                        has_at(tv, i as int, #[trigger] enc_cond(c)) implies (r matches Some(out)
                        && out.0@ == c && out.1 == i + enc_cond(c).len()) by {
                        lemma_has_at_index(tv, i as int, enc_cond(c), 0);
                        match c {
                            crate::types::SpecCondition::TextEquals { selector, expected } => {
                                lemma_has_at_split(
                                    tv,
                                    i as int,
                                    seq![SpecToken::U(1)] + enc_selector(selector),
                                    seq![SpecToken::S(expected)],
                                );
                                lemma_has_at_split(
                                    tv,
                                    i as int,
                                    seq![SpecToken::U(1)],
                                    enc_selector(selector),
                                );
                                lemma_has_at_index(
                                    tv,
                                    i + 1 + enc_selector(selector).len(),
                                    seq![SpecToken::S(expected)],
                                    0,
                                );
                            },
                            _ => {},
                        }
                    }
                }
                r
            } else if *tag == 2 || *tag == 3 {
                if i + 1 >= tokens.len() {
                    let r: Option<(crate::types::Condition, usize)> = None;
                    proof {
                        assert forall|c: crate::types::SpecCondition|
                            has_at(tv, i as int, #[trigger] enc_cond(c)) implies (r matches Some(
                            out,
                        ) && out.0@ == c && out.1 == i + enc_cond(c).len()) by {
                            lemma_has_at_index(tv, i as int, enc_cond(c), 0);
                            match c {
                                crate::types::SpecCondition::And(cs) => {
                                    lemma_has_at_index(tv, i as int, enc_cond(c), 1);
                                },
                                crate::types::SpecCondition::Or(cs) => {
                                    lemma_has_at_index(tv, i as int, enc_cond(c), 1);
                                },
                                _ => {},
                            }
                        }
                    }
                    return r;
                }
                match &tokens[i + 1] {
                    Token::U(n) => {
                        let and_tag = *tag == 2;
                        let sub = dec_cond_items(tokens, i + 2, *n);
                        let r: Option<(crate::types::Condition, usize)> = match sub {
                            Some((list, j)) => {
                                if and_tag {
                                    Some((crate::types::Condition::And(list), j))
                                } else {
                                    Some((crate::types::Condition::Or(list), j))
                                }
                            },
                            None => None,
                        };
                        proof {
                            assert forall|c: crate::types::SpecCondition|
                                has_at(tv, i as int, #[trigger] enc_cond(c)) implies (r matches
                            Some(out) && out.0@ == c && out.1 == i + enc_cond(c).len()) by {
                                lemma_has_at_index(tv, i as int, enc_cond(c), 0);
                                match c {
                                    crate::types::SpecCondition::And(cs) => {
                                        lemma_has_at_index(tv, i as int, enc_cond(c), 1);
                                        lemma_has_at_split(
                                            tv,
                                            i as int,
                                            seq![SpecToken::U(2), SpecToken::U(cs.len())],
                                            enc_cond_items(cs),
                                        );
                                    },
                                    crate::types::SpecCondition::Or(cs) => {
                                        lemma_has_at_index(tv, i as int, enc_cond(c), 1);
                                        lemma_has_at_split(
                                            tv,
                                            i as int,
                                            seq![SpecToken::U(3), SpecToken::U(cs.len())],
                                            enc_cond_items(cs),
                                        );
                                    },
                                    _ => {},
                                }
                            }
                        }
                        r
                    },
                    _ => {
                        let r: Option<(crate::types::Condition, usize)> = None;
                        proof {
                            assert forall|c: crate::types::SpecCondition|
                                has_at(tv, i as int, #[trigger] enc_cond(c)) implies (r matches
                            Some(out) && out.0@ == c && out.1 == i + enc_cond(c).len()) by {
                                lemma_has_at_index(tv, i as int, enc_cond(c), 0);
                                match c {
                                    crate::types::SpecCondition::And(cs) => {
                                        lemma_has_at_index(tv, i as int, enc_cond(c), 1);
                                    },
                                    crate::types::SpecCondition::Or(cs) => {
                                        lemma_has_at_index(tv, i as int, enc_cond(c), 1);
                                    },
                                    _ => {},
                                }
                            }
                        }
                        r
                    },
                }
            } else if *tag == 4 {
                let sub = dec_cond(tokens, i + 1);
                let r: Option<(crate::types::Condition, usize)> = match sub {
                    Some((inner, j)) => Some(
                        (crate::types::Condition::Not(Box::new(inner)), j),
                    ),
                    None => None,
                };
                proof {
                    assert forall|c: crate::types::SpecCondition|
                        has_at(tv, i as int, #[trigger] enc_cond(c)) implies (r matches Some(out)
                        && out.0@ == c && out.1 == i + enc_cond(c).len()) by {
                        lemma_has_at_index(tv, i as int, enc_cond(c), 0);
                        match c {
                            crate::types::SpecCondition::Not(inner) => {
                                lemma_has_at_split(
                                    tv,
                                    i as int,
                                    seq![SpecToken::U(4)],
                                    enc_cond(*inner),
                                );
                            },
                            _ => {},
                        }
                    }
                }
                r
            } else {
                let r: Option<(crate::types::Condition, usize)> = None;
                proof {
                    assert forall|c: crate::types::SpecCondition|
                        has_at(tv, i as int, #[trigger] enc_cond(c)) implies (r matches Some(out)
                        && out.0@ == c && out.1 == i + enc_cond(c).len()) by {
                        lemma_has_at_index(tv, i as int, enc_cond(c), 0);
                    }
                }
                r
            }
        },
        _ => {
            let r: Option<(crate::types::Condition, usize)> = None;
            proof {
                assert forall|c: crate::types::SpecCondition|
                    has_at(tv, i as int, #[trigger] enc_cond(c)) implies (r matches Some(out)
                    && out.0@ == c && out.1 == i + enc_cond(c).len()) by {
                    lemma_has_at_index(tv, i as int, enc_cond(c), 0);
                }
            }
            r
        },
    }
}

/// Read `n` conditions one after the other, starting at `i`.
fn dec_cond_items(tokens: &Vec<Token>, i: usize, n: u64) -> (r: Option<(
    Vec<crate::types::Condition>,
    usize,
)>)
    ensures
        r matches Some(out) ==> i <= out.1 <= tokens@.len(),
        forall|cs: Seq<crate::types::SpecCondition>|
            cs.len() == n && has_at(toks_view(tokens@), i as int, #[trigger] enc_cond_items(cs))
                ==> (r matches Some(out) && crate::types::conds_view(out.0@) == cs && out.1 == i
                + enc_cond_items(cs).len()),
    decreases tokens@.len() - i, n as nat + 1,
{
    let ghost tv = toks_view(tokens@);
    if i > tokens.len() {
        return None;
    }
    if n == 0 {
        let r: Option<(Vec<crate::types::Condition>, usize)> = Some((Vec::new(), i));
        proof {
            assert forall|cs: Seq<crate::types::SpecCondition>|
                cs.len() == n && has_at(tv, i as int, #[trigger] enc_cond_items(cs)) implies (r
                matches Some(out) && crate::types::conds_view(out.0@) == cs && out.1 == i
                + enc_cond_items(cs).len()) by {
                crate::types::lemma_conds_view(Seq::<crate::types::Condition>::empty());
                assert(crate::types::conds_view(Seq::<crate::types::Condition>::empty()) =~= cs);
            }
        }
        return r;
    }
    let head = dec_cond(tokens, i);
    match head {
        Some((c0, j)) => {
            let sub = dec_cond_items(tokens, j, n - 1);
            match sub {
                Some((mut rest, end)) => {
                    let ghost rest0 = rest@;
                    let ghost c0g = c0;
                    rest.insert(0, c0);
                    let r: Option<(Vec<crate::types::Condition>, usize)> = Some((rest, end));
                    proof {
                        assert forall|cs: Seq<crate::types::SpecCondition>|
                            cs.len() == n && has_at(tv, i as int, #[trigger] enc_cond_items(cs))
                            implies (r matches Some(out) && crate::types::conds_view(out.0@) == cs
                            && out.1 == i + enc_cond_items(cs).len()) by {
                            let tail = cs.subrange(1, cs.len() as int);
                            lemma_has_at_split(tv, i as int, enc_cond(cs[0]), enc_cond_items(tail));
                            assert(tail.len() == n - 1);
                            let merged = rest0.insert(0, c0g);
                            rest0.insert_ensures(0, c0g);
                            crate::types::lemma_conds_view(rest0);
                            crate::types::lemma_conds_view(merged);
                            assert forall|k: int|
                                0 <= k < cs.len() implies crate::types::conds_view(merged)[k]
                                == cs[k] by {
                                if k == 0 {
                                    assert(merged[0] == c0g);
                                } else {
                                    assert(merged[k] == rest0[k - 1]);
                                    assert(crate::types::conds_view(rest0)[k - 1] == tail[k - 1]);
                                    assert(tail[k - 1] == cs[k]);
                                }
                            }
                            assert(crate::types::conds_view(merged) =~= cs);
                        }
                    }
                    r
                },
                None => {
                    let r: Option<(Vec<crate::types::Condition>, usize)> = None;
                    proof {
                        assert forall|cs: Seq<crate::types::SpecCondition>|
                            cs.len() == n && has_at(tv, i as int, #[trigger] enc_cond_items(cs))
                            implies (r matches Some(out) && crate::types::conds_view(out.0@) == cs
                            && out.1 == i + enc_cond_items(cs).len()) by {
                            let tail = cs.subrange(1, cs.len() as int);
                            lemma_has_at_split(tv, i as int, enc_cond(cs[0]), enc_cond_items(tail));
                            assert(tail.len() == n - 1);
                        }
                    }
                    r
                },
            }
        },
        None => {
            let r: Option<(Vec<crate::types::Condition>, usize)> = None;
            proof {
                assert forall|cs: Seq<crate::types::SpecCondition>|
                    cs.len() == n && has_at(tv, i as int, #[trigger] enc_cond_items(cs)) implies (r
                    matches Some(out) && crate::types::conds_view(out.0@) == cs && out.1 == i
                    + enc_cond_items(cs).len()) by {
                    let tail = cs.subrange(1, cs.len() as int);
                    lemma_has_at_split(tv, i as int, enc_cond(cs[0]), enc_cond_items(tail));
                }
            }
            r
        },
    }
}

/// Tokens of a step: a variant tag, then its payloads; nested step lists
/// carry their length first.
pub open spec fn enc_step(s: crate::types::SpecStep) -> Seq<SpecToken>
    decreases s, 0nat,
{
    match s {
        crate::types::SpecStep::Click(sel) => seq![SpecToken::U(0)] + enc_selector(sel),
        crate::types::SpecStep::Input { selector, value } => seq![SpecToken::U(1)] + enc_selector(
            selector,
        ) + enc_vref(value),
        crate::types::SpecStep::WaitFor(sel) => seq![SpecToken::U(2)] + enc_selector(sel),
        crate::types::SpecStep::SleepMs(ms) => seq![SpecToken::U(3), SpecToken::U(ms as nat)],
        crate::types::SpecStep::Conditional { condition, on_true, on_false } => seq![
            SpecToken::U(4),
        ] + enc_cond(condition) + seq![SpecToken::U(on_true.len())] + enc_step_items(on_true)
            + seq![SpecToken::U(on_false.len())] + enc_step_items(on_false),
        crate::types::SpecStep::Loop { times, body } => seq![
            SpecToken::U(5),
            SpecToken::U(times as nat),
            SpecToken::U(body.len()),
        ] + enc_step_items(body),
    }
}

/// Tokens of a step list, one step after the other.
pub open spec fn enc_step_items(ss: Seq<crate::types::SpecStep>) -> Seq<SpecToken>
    decreases ss, 1nat,
{
    if ss.len() == 0 {
        Seq::<SpecToken>::empty()
    } else {
        enc_step(ss[0]) + enc_step_items(ss.subrange(1, ss.len() as int))
    }
}

/// Append a step's tokens to `out`.
fn push_step(out: &mut Vec<Token>, s: &crate::types::Step)
    ensures
        toks_view(final(out)@) == toks_view(old(out)@) + enc_step(s@),
    decreases *s, 0nat,
{
    match s {
        crate::types::Step::Click(sel) => {
            out.push(Token::U(0));
            push_selector(out, sel);
            proof {
                assert(toks_view(out@) =~= toks_view(old(out)@) + enc_step(s@));
            }
        },
        crate::types::Step::Input { selector, value } => {
            out.push(Token::U(1));
            push_selector(out, selector);
            let ghost mid = toks_view(out@);
            push_vref(out, value);
            proof {
                assert(mid =~= toks_view(old(out)@) + (seq![SpecToken::U(1)] + enc_selector(
                    selector@,
                )));
                assert(toks_view(out@) =~= toks_view(old(out)@) + enc_step(s@));
            }
        },
        crate::types::Step::WaitFor(sel) => {
            out.push(Token::U(2));
            push_selector(out, sel);
            proof {
                assert(toks_view(out@) =~= toks_view(old(out)@) + enc_step(s@));
            }
        },
        crate::types::Step::SleepMs(ms) => {
            out.push(Token::U(3));
            out.push(Token::U(*ms));
            proof {
                assert(toks_view(out@) =~= toks_view(old(out)@) + enc_step(s@));
            }
        },
        crate::types::Step::Conditional { condition, on_true, on_false } => {
            out.push(Token::U(4));
            push_cond(out, condition);
            let ghost m1 = toks_view(out@);
            out.push(Token::U(on_true.len() as u64));
            proof {
                crate::types::lemma_steps_view(on_true@);
                crate::types::lemma_steps_view(on_false@);
                assert(*s == crate::types::Step::Conditional {
                    condition: *condition,
                    on_true: *on_true,
                    on_false: *on_false,
                });
                assert(decreases_to!(*s => *on_true));
                assert(decreases_to!(*on_true => on_true@));
                assert(decreases_to!(*s => *on_false));
                assert(decreases_to!(*on_false => on_false@));
                assert(m1 =~= toks_view(old(out)@) + (seq![SpecToken::U(4)] + enc_cond(
                    condition@,
                )));
            }
            let ghost m2 = toks_view(out@);
            push_step_items(out, on_true);
            let ghost m3 = toks_view(out@);
            out.push(Token::U(on_false.len() as u64));
            let ghost m4 = toks_view(out@);
            push_step_items(out, on_false);
            proof {
                assert(m2 =~= m1 + seq![SpecToken::U(crate::types::steps_view(on_true@).len())]);
                assert(m4 =~= m3 + seq![SpecToken::U(crate::types::steps_view(on_false@).len())]);
                assert(toks_view(out@) =~= toks_view(old(out)@) + enc_step(s@));
            }
        },
        crate::types::Step::Loop { times, body } => {
            out.push(Token::U(5));
            out.push(Token::U(*times as u64));
            out.push(Token::U(body.len() as u64));
            let ghost mid = toks_view(out@);
            proof {
                crate::types::lemma_steps_view(body@);
                assert(*s == crate::types::Step::Loop { times: *times, body: *body });
                assert(decreases_to!(*s => *body));
                assert(decreases_to!(*body => body@));
                assert(mid =~= toks_view(old(out)@) + seq![
                    SpecToken::U(5),
                    SpecToken::U(*times as nat),
                    SpecToken::U(crate::types::steps_view(body@).len()),
                ]);
            }
            push_step_items(out, body);
            proof {
                assert(toks_view(out@) =~= toks_view(old(out)@) + enc_step(s@));
            }
        },
    }
}

/// Append a step list's tokens to `out`, first to last.
#[verifier::loop_isolation(false)]
fn push_step_items(out: &mut Vec<Token>, ss: &Vec<crate::types::Step>)
    ensures
        toks_view(final(out)@) == toks_view(old(out)@) + enc_step_items(
            crate::types::steps_view(ss@),
        ),
    decreases ss@, 1nat,
{
    let ghost whole = crate::types::steps_view(ss@);
    let ghost base = toks_view(old(out)@);
    proof {
        crate::types::lemma_steps_view(ss@);
        assert(whole.subrange(0, whole.len() as int) =~= whole);
        assert(base + Seq::<SpecToken>::empty() =~= base);
    }
    let ghost mut ev: Seq<SpecToken> = Seq::empty();
    let mut i: usize = 0;
    while i < ss.len()
        invariant
            i <= ss.len(),
            toks_view(out@) == base + ev,
            enc_step_items(whole) == ev + enc_step_items(
                whole.subrange(i as int, whole.len() as int),
            ),
        decreases ss@.len() - i,
    {
        let ghost rem = whole.subrange(i as int, whole.len() as int);
        proof {
            assert(rem[0] == whole[i as int]);
            assert(rem.subrange(1, rem.len() as int) =~= whole.subrange(
                i + 1 as int,
                whole.len() as int,
            ));
        }
        push_step(out, &ss[i]);
        proof {
            let item = enc_step(whole[i as int]);
            assert((base + ev) + item =~= base + (ev + item));
            assert((ev + item) + enc_step_items(
                whole.subrange(i + 1 as int, whole.len() as int),
            ) =~= ev + (item + enc_step_items(whole.subrange(i + 1 as int, whole.len() as int))));
            ev = ev + item;
        }
        i += 1;
    }
    proof {
        assert(whole.subrange(ss@.len() as int, whole.len() as int) =~= Seq::<
            crate::types::SpecStep,
        >::empty());
        assert(ev + Seq::<SpecToken>::empty() =~= ev);
    }
}

/// Read a step at `i`; yields the value and the next position.
fn dec_step(tokens: &Vec<Token>, i: usize) -> (r: Option<(crate::types::Step, usize)>)
    ensures
        r matches Some(out) ==> i < out.1 <= tokens@.len(),
        forall|s: crate::types::SpecStep|
            has_at(toks_view(tokens@), i as int, #[trigger] enc_step(s)) ==> (r matches Some(out)
                && out.0@ == s && out.1 == i + enc_step(s).len()),
    decreases tokens@.len() - i, 0nat,
{
    let ghost tv = toks_view(tokens@);
    if i >= tokens.len() {
        return None;
    }
    let tag: u64 = match &tokens[i] {
        Token::U(t) => *t,
        _ => {
            let r: Option<(crate::types::Step, usize)> = None;
            proof {
                assert forall|s: crate::types::SpecStep|
                    has_at(tv, i as int, #[trigger] enc_step(s)) implies (r matches Some(out)
                    && out.0@ == s && out.1 == i + enc_step(s).len()) by {
                    lemma_has_at_index(tv, i as int, enc_step(s), 0);
                }
            }
            return r;
        },
    };
    if tag == 0 || tag == 2 {
        let sub = dec_selector(tokens, i + 1);
        let r: Option<(crate::types::Step, usize)> = match sub {
            Some((sel, j)) => {
                if tag == 0 {
                    Some((crate::types::Step::Click(sel), j))
                } else {
                    Some((crate::types::Step::WaitFor(sel), j))
                }
            },
            None => None,
        };
        proof {
            assert forall|s: crate::types::SpecStep|
                has_at(tv, i as int, #[trigger] enc_step(s)) implies (r matches Some(out) && out.0@
                == s && out.1 == i + enc_step(s).len()) by {
                lemma_has_at_index(tv, i as int, enc_step(s), 0);
                match s {
                    crate::types::SpecStep::Click(sel) => {
                        lemma_has_at_split(tv, i as int, seq![SpecToken::U(0)], enc_selector(sel));
                    },
                    crate::types::SpecStep::WaitFor(sel) => {
                        lemma_has_at_split(tv, i as int, seq![SpecToken::U(2)], enc_selector(sel));
                    },
                    _ => {},
                }
            }
        }
        r
    } else if tag == 1 {
        let r: Option<(crate::types::Step, usize)> = match dec_selector(tokens, i + 1) {
            Some((sel, j)) => {
                match dec_vref(tokens, j) {
                    Some((value, j2)) => Some(
                        (crate::types::Step::Input { selector: sel, value }, j2),
                    ),
                    None => None,
                }
            },
            None => None,
        };
        proof {
            assert forall|s: crate::types::SpecStep|
                has_at(tv, i as int, #[trigger] enc_step(s)) implies (r matches Some(out) && out.0@
                == s && out.1 == i + enc_step(s).len()) by {
                lemma_has_at_index(tv, i as int, enc_step(s), 0);
                match s {
                    crate::types::SpecStep::Input { selector, value } => {
                        lemma_has_at_split(
                            tv,
                            i as int,
                            seq![SpecToken::U(1)] + enc_selector(selector),
                            enc_vref(value),
                        );
                        lemma_has_at_split(
                            tv,
                            i as int,
                            seq![SpecToken::U(1)],
                            enc_selector(selector),
                        );
                    },
                    _ => {},
                }
            }
        }
        r
    } else if tag == 3 {
        let r: Option<(crate::types::Step, usize)> = if i + 1 < tokens.len() {
            match &tokens[i + 1] {
                Token::U(ms) => Some((crate::types::Step::SleepMs(*ms), i + 2)),
                _ => None,
            }
        } else {
            None
        };
        proof {
            assert forall|s: crate::types::SpecStep|
                has_at(tv, i as int, #[trigger] enc_step(s)) implies (r matches Some(out) && out.0@
                == s && out.1 == i + enc_step(s).len()) by {
                lemma_has_at_index(tv, i as int, enc_step(s), 0);
                match s {
                    crate::types::SpecStep::SleepMs(ms) => {
                        lemma_has_at_index(tv, i as int, enc_step(s), 1);
                    },
                    _ => {},
                }
            }
        }
        r
    } else if tag == 4 {
        let r: Option<(crate::types::Step, usize)> = match dec_cond(tokens, i + 1) {
            Some((condition, j)) => {
                if j < tokens.len() {
                    match &tokens[j] {
                        Token::U(nt) => {
                            match dec_step_items(tokens, j + 1, *nt) {
                                Some((tvec, j2)) => {
                                    if j2 < tokens.len() {
                                        match &tokens[j2] {
                                            Token::U(nf) => {
                                                match dec_step_items(tokens, j2 + 1, *nf) {
                                                    Some((fvec, j3)) => Some(
                                                        (
                                                            crate::types::Step::Conditional {
                                                                condition,
                                                                on_true: tvec,
                                                                on_false: fvec,
                                                            },
                                                            j3,
                                                        ),
                                                    ),
                                                    None => None,
                                                }
                                            },
                                            _ => None,
                                        }
                                    } else {
                                        None
                                    }
                                },
                                None => None,
                            }
                        },
                        _ => None,
                    }
                } else {
                    None
                }
            },
            None => None,
        };
        proof {
            assert forall|s: crate::types::SpecStep|
                has_at(tv, i as int, #[trigger] enc_step(s)) implies (r matches Some(out) && out.0@
                == s && out.1 == i + enc_step(s).len()) by {
                lemma_has_at_index(tv, i as int, enc_step(s), 0);
                match s {
                    crate::types::SpecStep::Conditional { condition, on_true, on_false } => {
                        let e1 = seq![SpecToken::U(4)];
                        let e2 = enc_cond(condition);
                        let e3 = seq![SpecToken::U(on_true.len())];
                        let e4 = enc_step_items(on_true);
                        let e5 = seq![SpecToken::U(on_false.len())];
                        let e6 = enc_step_items(on_false);
                        lemma_has_at_split(tv, i as int, e1 + e2 + e3 + e4 + e5, e6);
                        lemma_has_at_split(tv, i as int, e1 + e2 + e3 + e4, e5);
                        lemma_has_at_split(tv, i as int, e1 + e2 + e3, e4);
                        lemma_has_at_split(tv, i as int, e1 + e2, e3);
                        lemma_has_at_split(tv, i as int, e1, e2);
                        lemma_has_at_index(
                            tv,
                            i + (e1 + e2).len(),
                            e3,
                            0,
                        );
                        lemma_has_at_index(
                            tv,
                            i + (e1 + e2 + e3 + e4).len(),
                            e5,
                            0,
                        );
                    },
                    _ => {},
                }
            }
        }
        r
    } else if tag == 5 {
        let r: Option<(crate::types::Step, usize)> = if i + 1 < tokens.len() && i + 2
            < tokens.len() {
            match (&tokens[i + 1], &tokens[i + 2]) {
                (Token::U(times), Token::U(nb)) => {
                    if *times <= u32::MAX as u64 {
                        match dec_step_items(tokens, i + 3, *nb) {
                            Some((body, j)) => Some(
                                (
                                    crate::types::Step::Loop { times: *times as u32, body },
                                    j,
                                ),
                            ),
                            None => None,
                        }
                    } else {
                        None
                    }
                },
                _ => None,
            }
        } else {
            None
        };
        proof {
            assert forall|s: crate::types::SpecStep|
                has_at(tv, i as int, #[trigger] enc_step(s)) implies (r matches Some(out) && out.0@
                == s && out.1 == i + enc_step(s).len()) by {
                lemma_has_at_index(tv, i as int, enc_step(s), 0);
                match s {
                    crate::types::SpecStep::Loop { times, body } => {
                        let e1 = seq![
                            SpecToken::U(5),
                            SpecToken::U(times as nat),
                            SpecToken::U(body.len()),
                        ];
                        lemma_has_at_split(tv, i as int, e1, enc_step_items(body));
                        lemma_has_at_index(tv, i as int, e1, 1);
                        lemma_has_at_index(tv, i as int, e1, 2);
                    },
                    _ => {},
                }
            }
        }
        r
    } else {
        let r: Option<(crate::types::Step, usize)> = None;
        proof {
            assert forall|s: crate::types::SpecStep|
                has_at(tv, i as int, #[trigger] enc_step(s)) implies (r matches Some(out) && out.0@
                == s && out.1 == i + enc_step(s).len()) by {
                lemma_has_at_index(tv, i as int, enc_step(s), 0);
            }
        }
        r
    }
}

/// Read `n` steps one after the other, starting at `i`.
fn dec_step_items(tokens: &Vec<Token>, i: usize, n: u64) -> (r: Option<(
    Vec<crate::types::Step>,
    usize,
)>)
    ensures
        r matches Some(out) ==> i <= out.1 <= tokens@.len(),
        forall|ss: Seq<crate::types::SpecStep>|
            ss.len() == n && has_at(toks_view(tokens@), i as int, #[trigger] enc_step_items(ss))
                ==> (r matches Some(out) && crate::types::steps_view(out.0@) == ss && out.1 == i
                + enc_step_items(ss).len()),
    decreases tokens@.len() - i, n as nat + 1,
{
    let ghost tv = toks_view(tokens@);
    if i > tokens.len() {
        return None;
    }
    if n == 0 {
        let r: Option<(Vec<crate::types::Step>, usize)> = Some((Vec::new(), i));
        proof {
            assert forall|ss: Seq<crate::types::SpecStep>|
                ss.len() == n && has_at(tv, i as int, #[trigger] enc_step_items(ss)) implies (r
                matches Some(out) && crate::types::steps_view(out.0@) == ss && out.1 == i
                + enc_step_items(ss).len()) by {
                crate::types::lemma_steps_view(Seq::<crate::types::Step>::empty());
                assert(crate::types::steps_view(Seq::<crate::types::Step>::empty()) =~= ss);
            }
        }
        return r;
    }
    let head = dec_step(tokens, i);
    match head {
        Some((s0, j)) => {
            let sub = dec_step_items(tokens, j, n - 1);
            match sub {
                Some((mut rest, end)) => {
                    let ghost rest0 = rest@;
                    let ghost s0g = s0;
                    rest.insert(0, s0);
                    let r: Option<(Vec<crate::types::Step>, usize)> = Some((rest, end));
                    proof {
                        assert forall|ss: Seq<crate::types::SpecStep>|
                            ss.len() == n && has_at(tv, i as int, #[trigger] enc_step_items(ss))
                            implies (r matches Some(out) && crate::types::steps_view(out.0@) == ss
                            && out.1 == i + enc_step_items(ss).len()) by {
                            let tail = ss.subrange(1, ss.len() as int);
                            lemma_has_at_split(tv, i as int, enc_step(ss[0]), enc_step_items(tail));
                            assert(tail.len() == n - 1);
                            let merged = rest0.insert(0, s0g);
                            rest0.insert_ensures(0, s0g);
                            crate::types::lemma_steps_view(rest0);
                            crate::types::lemma_steps_view(merged);
                            assert forall|k: int|
                                0 <= k < ss.len() implies crate::types::steps_view(merged)[k]
                                == ss[k] by {
                                if k == 0 {
                                    assert(merged[0] == s0g);
                                } else {
                                    assert(merged[k] == rest0[k - 1]);
                                    assert(crate::types::steps_view(rest0)[k - 1] == tail[k - 1]);
                                    assert(tail[k - 1] == ss[k]);
                                }
                            }
                            assert(crate::types::steps_view(merged) =~= ss);
                        }
                    }
                    r
                },
                None => {
                    let r: Option<(Vec<crate::types::Step>, usize)> = None;
                    proof {
                        assert forall|ss: Seq<crate::types::SpecStep>|
                            ss.len() == n && has_at(tv, i as int, #[trigger] enc_step_items(ss))
                            implies (r matches Some(out) && crate::types::steps_view(out.0@) == ss
                            && out.1 == i + enc_step_items(ss).len()) by {
                            let tail = ss.subrange(1, ss.len() as int);
                            lemma_has_at_split(tv, i as int, enc_step(ss[0]), enc_step_items(tail));
                            assert(tail.len() == n - 1);
                        }
                    }
                    r
                },
            }
        },
        None => {
            let r: Option<(Vec<crate::types::Step>, usize)> = None;
            proof {
                assert forall|ss: Seq<crate::types::SpecStep>|
                    ss.len() == n && has_at(tv, i as int, #[trigger] enc_step_items(ss)) implies (r
                    matches Some(out) && crate::types::steps_view(out.0@) == ss && out.1 == i
                    + enc_step_items(ss).len()) by {
                    let tail = ss.subrange(1, ss.len() as int);
                    lemma_has_at_split(tv, i as int, enc_step(ss[0]), enc_step_items(tail));
                }
            }
            r
        },
    }
}

/// Tokens of an optional string: a presence flag, then the string.
pub open spec fn enc_opt_str(o: Option<Seq<char>>) -> Seq<SpecToken> {
    match o {
        None => seq![SpecToken::U(0)],
        Some(s) => seq![SpecToken::U(1), SpecToken::S(s)],
    }
}

/// Tokens of a target app: platform kind, name, optional version and
/// endpoint.
pub open spec fn enc_target(t: crate::types::SpecTargetApp) -> Seq<SpecToken> {
    enc_kind(t.kind) + seq![SpecToken::S(t.name)] + enc_opt_str(t.version) + enc_opt_str(
        t.endpoint,
    )
}

/// Tokens of script metadata: id, version, and the optional audit fields.
pub open spec fn enc_meta(m: crate::types::SpecScriptMeta) -> Seq<SpecToken> {
    seq![SpecToken::S(m.id), SpecToken::S(m.version)] + enc_opt_str(m.author) + enc_opt_str(
        m.created_at,
    ) + enc_opt_str(m.updated_at)
}

/// Tokens of a validation: its description, then its condition.
pub open spec fn enc_validation(v: crate::types::SpecValidation) -> Seq<SpecToken> {
    seq![SpecToken::S(v.description)] + enc_cond(v.condition)
}

/// Tokens of a validation list, one validation after the other.
pub open spec fn enc_validation_items(vs: Seq<crate::types::SpecValidation>) -> Seq<SpecToken>
    decreases vs,
{
    if vs.len() == 0 {
        Seq::<SpecToken>::empty()
    } else {
        enc_validation(vs[0]) + enc_validation_items(vs.subrange(1, vs.len() as int))
    }
}

/// Tokens of an error handler: its name, then its counted recovery steps.
pub open spec fn enc_handler(h: crate::types::SpecErrorHandler) -> Seq<SpecToken> {
    seq![SpecToken::S(h.name), SpecToken::U(h.on_error.len())] + enc_step_items(h.on_error)
}

/// Tokens of an error-handler list, one handler after the other.
pub open spec fn enc_handler_items(hs: Seq<crate::types::SpecErrorHandler>) -> Seq<SpecToken>
    decreases hs,
{
    if hs.len() == 0 {
        Seq::<SpecToken>::empty()
    } else {
        enc_handler(hs[0]) + enc_handler_items(hs.subrange(1, hs.len() as int))
    }
}

/// Tokens of a whole script: metadata, target, then the counted step,
/// validation and error-handler lists.
pub open spec fn enc_script(s: crate::types::SpecLoginScript) -> Seq<SpecToken> {
    enc_meta(s.meta) + enc_target(s.target) + seq![SpecToken::U(s.steps.len())] + enc_step_items(
        s.steps,
    ) + seq![SpecToken::U(s.validations.len())] + enc_validation_items(s.validations) + seq![
        SpecToken::U(s.error_handlers.len()),
    ] + enc_handler_items(s.error_handlers)
}

/// Append a target app's tokens to `out`.
fn push_target(out: &mut Vec<Token>, t: &crate::types::TargetApp)
    ensures
        toks_view(final(out)@) == toks_view(old(out)@) + enc_target(t@),
{
    match t.kind {
        crate::types::TargetAppKind::Web => out.push(Token::U(0)),
        crate::types::TargetAppKind::Android => out.push(Token::U(1)),
    }
    out.push(Token::S(t.name.clone()));
    let ghost mid = toks_view(out@);
    push_opt_str(out, &t.version);
    let ghost mid2 = toks_view(out@);
    push_opt_str(out, &t.endpoint);
    proof {
        assert(mid =~= toks_view(old(out)@) + (enc_kind(t@.kind) + seq![SpecToken::S(t@.name)]));
        assert(toks_view(out@) =~= toks_view(old(out)@) + enc_target(t@));
    }
}

/// Append script metadata's tokens to `out`.
fn push_meta(out: &mut Vec<Token>, m: &crate::types::ScriptMeta)
    ensures
        toks_view(final(out)@) == toks_view(old(out)@) + enc_meta(m@),
{
    out.push(Token::S(m.id.clone()));
    out.push(Token::S(m.version.clone()));
    let ghost mid = toks_view(out@);
    push_opt_str(out, &m.author);
    let ghost mid2 = toks_view(out@);
    push_opt_str(out, &m.created_at);
    let ghost mid3 = toks_view(out@);
    push_opt_str(out, &m.updated_at);
    proof {
        assert(mid =~= toks_view(old(out)@) + seq![
            SpecToken::S(m@.id),
            SpecToken::S(m@.version),
        ]);
        assert(toks_view(out@) =~= toks_view(old(out)@) + enc_meta(m@));
    }
}

/// Append a validation list's tokens to `out`, first to last.
#[verifier::loop_isolation(false)]
fn push_validation_items(out: &mut Vec<Token>, vs: &Vec<crate::types::Validation>)
    ensures
        toks_view(final(out)@) == toks_view(old(out)@) + enc_validation_items(
            crate::types::validations_view(vs@),
        ),
{
    let ghost whole = crate::types::validations_view(vs@);
    let ghost base = toks_view(old(out)@);
    proof {
        assert(whole.subrange(0, whole.len() as int) =~= whole);
        assert(base + Seq::<SpecToken>::empty() =~= base);
    }
    let ghost mut ev: Seq<SpecToken> = Seq::empty();
    let mut i: usize = 0;
    while i < vs.len()
        invariant
            i <= vs.len(),
            toks_view(out@) == base + ev,
            enc_validation_items(whole) == ev + enc_validation_items(
                whole.subrange(i as int, whole.len() as int),
            ),
        decreases vs@.len() - i,
    {
        let ghost rem = whole.subrange(i as int, whole.len() as int);
        proof {
            assert(rem[0] == whole[i as int]);
            assert(rem.subrange(1, rem.len() as int) =~= whole.subrange(
                i + 1 as int,
                whole.len() as int,
            ));
        }
        let v = &vs[i];
        out.push(Token::S(v.description.clone()));
        push_cond(out, &v.condition);
        proof {
            let item = enc_validation(whole[i as int]);
            assert(toks_view(out@) =~= (base + ev) + item);
            assert((base + ev) + item =~= base + (ev + item));
            assert((ev + item) + enc_validation_items(
                whole.subrange(i + 1 as int, whole.len() as int),
            ) =~= ev + (item + enc_validation_items(
                whole.subrange(i + 1 as int, whole.len() as int),
            )));
            ev = ev + item;
        }
        i += 1;
    }
    proof {
        assert(whole.subrange(vs@.len() as int, whole.len() as int) =~= Seq::<
            crate::types::SpecValidation,
        >::empty());
        assert(ev + Seq::<SpecToken>::empty() =~= ev);
    }
}

/// Append an error-handler list's tokens to `out`, first to last.
#[verifier::loop_isolation(false)]
fn push_handler_items(out: &mut Vec<Token>, hs: &Vec<crate::types::ErrorHandler>)
    ensures
        toks_view(final(out)@) == toks_view(old(out)@) + enc_handler_items(
            crate::types::handlers_view(hs@),
        ),
{
    let ghost whole = crate::types::handlers_view(hs@);
    let ghost base = toks_view(old(out)@);
    proof {
        assert(whole.subrange(0, whole.len() as int) =~= whole);
        assert(base + Seq::<SpecToken>::empty() =~= base);
    }
    let ghost mut ev: Seq<SpecToken> = Seq::empty();
    let mut i: usize = 0;
    while i < hs.len()
        invariant
            i <= hs.len(),
            toks_view(out@) == base + ev,
            enc_handler_items(whole) == ev + enc_handler_items(
                whole.subrange(i as int, whole.len() as int),
            ),
        decreases hs@.len() - i,
    {
        let ghost rem = whole.subrange(i as int, whole.len() as int);
        proof {
            assert(rem[0] == whole[i as int]);
            assert(rem.subrange(1, rem.len() as int) =~= whole.subrange(
                i + 1 as int,
                whole.len() as int,
            ));
        }
        let h = &hs[i];
        out.push(Token::S(h.name.clone()));
        out.push(Token::U(h.on_error.len() as u64));
        let ghost mid = toks_view(out@);
        proof {
            crate::types::lemma_steps_view(h.on_error@);
            assert(mid =~= (base + ev) + seq![
                SpecToken::S(whole[i as int].name),
                SpecToken::U(whole[i as int].on_error.len()),
            ]);
        }
        push_step_items(out, &h.on_error);
        proof {
            let item = enc_handler(whole[i as int]);
            assert(toks_view(out@) =~= (base + ev) + item);
            assert((base + ev) + item =~= base + (ev + item));
            assert((ev + item) + enc_handler_items(
                whole.subrange(i + 1 as int, whole.len() as int),
            ) =~= ev + (item + enc_handler_items(
                whole.subrange(i + 1 as int, whole.len() as int),
            )));
            ev = ev + item;
        }
        i += 1;
    }
    proof {
        assert(whole.subrange(hs@.len() as int, whole.len() as int) =~= Seq::<
            crate::types::SpecErrorHandler,
        >::empty());
        assert(ev + Seq::<SpecToken>::empty() =~= ev);
    }
}

/// Serialize a whole script to its token stream.
pub fn encode_script(s: &crate::types::LoginScript) -> (r: Vec<Token>)
    ensures
        toks_view(r@) == enc_script(s@),
{
    let mut out: Vec<Token> = Vec::new();
    push_meta(&mut out, &s.meta);
    push_target(&mut out, &s.target);
    let ghost g2 = toks_view(out@);
    out.push(Token::U(s.steps.len() as u64));
    proof {
        crate::types::lemma_steps_view(s.steps@);
        assert(s.steps.len() as u64 as nat == s.steps@.len());
        assert(toks_view(out@) =~= g2 + seq![SpecToken::U(s@.steps.len())]);
    }
    push_step_items(&mut out, &s.steps);
    let ghost g4 = toks_view(out@);
    out.push(Token::U(s.validations.len() as u64));
    proof {
        assert(s.validations.len() as u64 as nat == s.validations@.len());
        assert(toks_view(out@) =~= g4 + seq![SpecToken::U(s@.validations.len())]);
    }
    push_validation_items(&mut out, &s.validations);
    let ghost g6 = toks_view(out@);
    out.push(Token::U(s.error_handlers.len() as u64));
    proof {
        assert(s.error_handlers.len() as u64 as nat == s.error_handlers@.len());
        assert(toks_view(out@) =~= g6 + seq![SpecToken::U(s@.error_handlers.len())]);
    }
    push_handler_items(&mut out, &s.error_handlers);
    proof {
        assert(toks_view(out@) =~= enc_script(s@));
    }
    out
}

/// Read a target app at `i`; yields the value and the next position.
fn dec_target(tokens: &Vec<Token>, i: usize) -> (r: Option<(crate::types::TargetApp, usize)>)
    ensures
        r matches Some(out) ==> i < out.1 <= tokens@.len(),
        forall|t: crate::types::SpecTargetApp|
            has_at(toks_view(tokens@), i as int, #[trigger] enc_target(t)) ==> (r matches Some(out)
                && out.0@ == t && out.1 == i + enc_target(t).len()),
{
    let ghost tv = toks_view(tokens@);
    let r: Option<(crate::types::TargetApp, usize)> = if i < tokens.len() && i + 1 < tokens.len() {
        match (&tokens[i], &tokens[i + 1]) {
            (Token::U(tag), Token::S(name)) => {
                if *tag <= 1 {
                    let kind = if *tag == 0 {
                        crate::types::TargetAppKind::Web
                    } else {
                        crate::types::TargetAppKind::Android
                    };
                    match dec_opt_str(tokens, i + 2) {
                        Some((version, j)) => {
                            match dec_opt_str(tokens, j) {
                                Some((endpoint, j2)) => Some(
                                    (
                                        crate::types::TargetApp {
                                            kind,
                                            name: name.clone(),
                                            version,
                                            endpoint,
                                        },
                                        j2,
                                    ),
                                ),
                                None => None,
                            }
                        },
                        None => None,
                    }
                } else {
                    None
                }
            },
            _ => None,
        }
    } else {
        None
    };
    proof {
        assert forall|t: crate::types::SpecTargetApp|
            has_at(tv, i as int, #[trigger] enc_target(t)) implies (r matches Some(out) && out.0@
            == t && out.1 == i + enc_target(t).len()) by {
            let e1 = enc_kind(t.kind) + seq![SpecToken::S(t.name)];
            let e2 = enc_opt_str(t.version);
            let e3 = enc_opt_str(t.endpoint);
            lemma_has_at_split(tv, i as int, e1 + e2, e3);
            lemma_has_at_split(tv, i as int, e1, e2);
            lemma_has_at_index(tv, i as int, e1, 0);
            lemma_has_at_index(tv, i as int, e1, 1);
        }
    }
    r
}

/// Read script metadata at `i`; yields the value and the next position.
fn dec_meta(tokens: &Vec<Token>, i: usize) -> (r: Option<(crate::types::ScriptMeta, usize)>)
    ensures
        r matches Some(out) ==> i < out.1 <= tokens@.len(),
        forall|m: crate::types::SpecScriptMeta|
            has_at(toks_view(tokens@), i as int, #[trigger] enc_meta(m)) ==> (r matches Some(out)
                && out.0@ == m && out.1 == i + enc_meta(m).len()),
{
    let ghost tv = toks_view(tokens@);
    let r: Option<(crate::types::ScriptMeta, usize)> = if i < tokens.len() && i + 1
        < tokens.len() {
        match (&tokens[i], &tokens[i + 1]) {
            (Token::S(id), Token::S(version)) => {
                match dec_opt_str(tokens, i + 2) {
                    Some((author, j)) => {
                        match dec_opt_str(tokens, j) {
                            Some((created_at, j2)) => {
                                match dec_opt_str(tokens, j2) {
                                    Some((updated_at, j3)) => Some(
                                        (
                                            crate::types::ScriptMeta {
                                                id: id.clone(),
                                                version: version.clone(),
                                                author,
                                                created_at,
                                                updated_at,
                                            },
                                            j3,
                                        ),
                                    ),
                                    None => None,
                                }
                            },
                            None => None,
                        }
                    },
                    None => None,
                }
            },
            _ => None,
        }
    } else {
        None
    };
    proof {
        assert forall|m: crate::types::SpecScriptMeta|
            has_at(tv, i as int, #[trigger] enc_meta(m)) implies (r matches Some(out) && out.0@
            == m && out.1 == i + enc_meta(m).len()) by {
            let e1 = seq![SpecToken::S(m.id), SpecToken::S(m.version)];
            let e2 = enc_opt_str(m.author);
            let e3 = enc_opt_str(m.created_at);
            let e4 = enc_opt_str(m.updated_at);
            lemma_has_at_split(tv, i as int, e1 + e2 + e3, e4);
            lemma_has_at_split(tv, i as int, e1 + e2, e3);
            lemma_has_at_split(tv, i as int, e1, e2);
            lemma_has_at_index(tv, i as int, e1, 0);
            lemma_has_at_index(tv, i as int, e1, 1);
        }
    }
    r
}

/// Read `n` validations one after the other, starting at `i`.
fn dec_validation_items(tokens: &Vec<Token>, i: usize, n: u64) -> (r: Option<(
    Vec<crate::types::Validation>,
    usize,
)>)
    ensures
        r matches Some(out) ==> i <= out.1 <= tokens@.len(),
        forall|vs: Seq<crate::types::SpecValidation>|
            vs.len() == n && has_at(
                toks_view(tokens@),
                i as int,
                #[trigger] enc_validation_items(vs),
            ) ==> (r matches Some(out) && crate::types::validations_view(out.0@) == vs && out.1
                == i + enc_validation_items(vs).len()),
    decreases tokens@.len() - i, n as nat + 1,
{
    let ghost tv = toks_view(tokens@);
    if i > tokens.len() {
        return None;
    }
    if n == 0 {
        let r: Option<(Vec<crate::types::Validation>, usize)> = Some((Vec::new(), i));
        proof {
            assert forall|vs: Seq<crate::types::SpecValidation>|
                vs.len() == n && has_at(tv, i as int, #[trigger] enc_validation_items(vs)) implies (
            r matches Some(out) && crate::types::validations_view(out.0@) == vs && out.1 == i
                + enc_validation_items(vs).len()) by {
                assert(crate::types::validations_view(Seq::<crate::types::Validation>::empty())
                    =~= vs);
            }
        }
        return r;
    }
    if i >= tokens.len() {
        let r: Option<(Vec<crate::types::Validation>, usize)> = None;
        proof {
            assert forall|vs: Seq<crate::types::SpecValidation>|
                vs.len() == n && has_at(tv, i as int, #[trigger] enc_validation_items(vs)) implies (
            r matches Some(out) && crate::types::validations_view(out.0@) == vs && out.1 == i
                + enc_validation_items(vs).len()) by {
                let tail = vs.subrange(1, vs.len() as int);
                lemma_has_at_split(tv, i as int, enc_validation(vs[0]), enc_validation_items(tail));
                lemma_has_at_index(tv, i as int, enc_validation(vs[0]), 0);
            }
        }
        return r;
    }
    let desc: String = match &tokens[i] {
        Token::S(d) => d.clone(),
        _ => {
            let r: Option<(Vec<crate::types::Validation>, usize)> = None;
            proof {
                assert forall|vs: Seq<crate::types::SpecValidation>|
                    vs.len() == n && has_at(tv, i as int, #[trigger] enc_validation_items(vs))
                    implies (r matches Some(out) && crate::types::validations_view(out.0@) == vs
                    && out.1 == i + enc_validation_items(vs).len()) by {
                    let tail = vs.subrange(1, vs.len() as int);
                    lemma_has_at_split(
                        tv,
                        i as int,
                        enc_validation(vs[0]),
                        enc_validation_items(tail),
                    );
                    lemma_has_at_index(tv, i as int, enc_validation(vs[0]), 0);
                }
            }
            return r;
        },
    };
    match dec_cond(tokens, i + 1) {
        Some((condition, j)) => {
            match dec_validation_items(tokens, j, n - 1) {
                Some((mut rest, end)) => {
                    let v = crate::types::Validation { description: desc, condition };
                    let ghost rest0 = rest@;
                    let ghost vg = v;
                    rest.insert(0, v);
                    let r: Option<(Vec<crate::types::Validation>, usize)> = Some((rest, end));
                    proof {
                        assert forall|vs: Seq<crate::types::SpecValidation>|
                            vs.len() == n && has_at(
                                tv,
                                i as int,
                                #[trigger] enc_validation_items(vs),
                            ) implies (r matches Some(out) && crate::types::validations_view(out.0@)
                            == vs && out.1 == i + enc_validation_items(vs).len()) by {
                            let tail = vs.subrange(1, vs.len() as int);
                            lemma_has_at_split(
                                tv,
                                i as int,
                                enc_validation(vs[0]),
                                enc_validation_items(tail),
                            );
                            lemma_has_at_split(
                                tv,
                                i as int,
                                seq![SpecToken::S(vs[0].description)],
                                enc_cond(vs[0].condition),
                            );
                            lemma_has_at_index(
                                tv,
                                i as int,
                                seq![SpecToken::S(vs[0].description)],
                                0,
                            );
                            assert(tail.len() == n - 1);
                            let merged = rest0.insert(0, vg);
                            rest0.insert_ensures(0, vg);
                            assert forall|k: int|
                                0 <= k < vs.len() implies crate::types::validations_view(
                                merged,
                            )[k] == vs[k] by {
                                if k == 0 {
                                    assert(merged[0] == vg);
                                } else {
                                    assert(merged[k] == rest0[k - 1]);
                                    assert(crate::types::validations_view(rest0)[k - 1] == tail[k
                                        - 1]);
                                    assert(tail[k - 1] == vs[k]);
                                }
                            }
                            assert(crate::types::validations_view(merged) =~= vs);
                        }
                    }
                    r
                },
                None => {
                    let r: Option<(Vec<crate::types::Validation>, usize)> = None;
                    proof {
                        assert forall|vs: Seq<crate::types::SpecValidation>|
                            vs.len() == n && has_at(
                                tv,
                                i as int,
                                #[trigger] enc_validation_items(vs),
                            ) implies (r matches Some(out) && crate::types::validations_view(out.0@)
                            == vs && out.1 == i + enc_validation_items(vs).len()) by {
                            let tail = vs.subrange(1, vs.len() as int);
                            lemma_has_at_split(
                                tv,
                                i as int,
                                enc_validation(vs[0]),
                                enc_validation_items(tail),
                            );
                            lemma_has_at_split(
                                tv,
                                i as int,
                                seq![SpecToken::S(vs[0].description)],
                                enc_cond(vs[0].condition),
                            );
                            assert(tail.len() == n - 1);
                        }
                    }
                    r
                },
            }
        },
        None => {
            let r: Option<(Vec<crate::types::Validation>, usize)> = None;
            proof {
                assert forall|vs: Seq<crate::types::SpecValidation>|
                    vs.len() == n && has_at(tv, i as int, #[trigger] enc_validation_items(vs))
                    implies (r matches Some(out) && crate::types::validations_view(out.0@) == vs
                    && out.1 == i + enc_validation_items(vs).len()) by {
                    let tail = vs.subrange(1, vs.len() as int);
                    lemma_has_at_split(
                        tv,
                        i as int,
                        enc_validation(vs[0]),
                        enc_validation_items(tail),
                    );
                    lemma_has_at_split(
                        tv,
                        i as int,
                        seq![SpecToken::S(vs[0].description)],
                        enc_cond(vs[0].condition),
                    );
                }
            }
            r
        },
    }
}

/// Read `n` error handlers one after the other, starting at `i`.
fn dec_handler_items(tokens: &Vec<Token>, i: usize, n: u64) -> (r: Option<(
    Vec<crate::types::ErrorHandler>,
    usize,
)>)
    ensures
        r matches Some(out) ==> i <= out.1 <= tokens@.len(),
        forall|hs: Seq<crate::types::SpecErrorHandler>|
            hs.len() == n && has_at(toks_view(tokens@), i as int, #[trigger] enc_handler_items(hs))
                ==> (r matches Some(out) && crate::types::handlers_view(out.0@) == hs && out.1 == i
                + enc_handler_items(hs).len()),
    decreases tokens@.len() - i, n as nat + 1,
{
    let ghost tv = toks_view(tokens@);
    if i > tokens.len() {
        return None;
    }
    if n == 0 {
        let r: Option<(Vec<crate::types::ErrorHandler>, usize)> = Some((Vec::new(), i));
        proof {
            assert forall|hs: Seq<crate::types::SpecErrorHandler>|
                hs.len() == n && has_at(tv, i as int, #[trigger] enc_handler_items(hs)) implies (r
                matches Some(out) && crate::types::handlers_view(out.0@) == hs && out.1 == i
                + enc_handler_items(hs).len()) by {
                assert(crate::types::handlers_view(Seq::<crate::types::ErrorHandler>::empty())
                    =~= hs);
            }
        }
        return r;
    }
    if i < tokens.len() && i + 1 < tokens.len() {
        match (&tokens[i], &tokens[i + 1]) {
            (Token::S(name), Token::U(ne)) => {
                match dec_step_items(tokens, i + 2, *ne) {
                    Some((on_error, j)) => {
                        match dec_handler_items(tokens, j, n - 1) {
                            Some((mut rest, end)) => {
                                let h = crate::types::ErrorHandler { name: name.clone(), on_error };
                                let ghost rest0 = rest@;
                                let ghost hg = h;
                                rest.insert(0, h);
                                let r: Option<(Vec<crate::types::ErrorHandler>, usize)> = Some(
                                    (rest, end),
                                );
                                proof {
                                    assert forall|hs: Seq<crate::types::SpecErrorHandler>|
                                        hs.len() == n && has_at(
                                            tv,
                                            i as int,
                                            #[trigger] enc_handler_items(hs),
                                        ) implies (r matches Some(out)
                                        && crate::types::handlers_view(out.0@) == hs && out.1 == i
                                        + enc_handler_items(hs).len()) by {
                                        let tail = hs.subrange(1, hs.len() as int);
                                        lemma_has_at_split(
                                            tv,
                                            i as int,
                                            enc_handler(hs[0]),
                                            enc_handler_items(tail),
                                        );
                                        let e1 = seq![
                                            SpecToken::S(hs[0].name),
                                            SpecToken::U(hs[0].on_error.len()),
                                        ];
                                        lemma_has_at_split(
                                            tv,
                                            i as int,
                                            e1,
                                            enc_step_items(hs[0].on_error),
                                        );
                                        lemma_has_at_index(tv, i as int, e1, 0);
                                        lemma_has_at_index(tv, i as int, e1, 1);
                                        assert(tail.len() == n - 1);
                                        let merged = rest0.insert(0, hg);
                                        rest0.insert_ensures(0, hg);
                                        assert forall|k: int|
                                            0 <= k < hs.len()
                                            implies crate::types::handlers_view(merged)[k]
                                            == hs[k] by {
                                            if k == 0 {
                                                assert(merged[0] == hg);
                                            } else {
                                                assert(merged[k] == rest0[k - 1]);
                                                assert(crate::types::handlers_view(rest0)[k - 1]
                                                    == tail[k - 1]);
                                                assert(tail[k - 1] == hs[k]);
                                            }
                                        }
                                        assert(crate::types::handlers_view(merged) =~= hs);
                                    }
                                }
                                r
                            },
                            None => {
                                let r: Option<(Vec<crate::types::ErrorHandler>, usize)> = None;
                                proof {
                                    assert forall|hs: Seq<crate::types::SpecErrorHandler>|
                                        hs.len() == n && has_at(
                                            tv,
                                            i as int,
                                            #[trigger] enc_handler_items(hs),
                                        ) implies (r matches Some(out)
                                        && crate::types::handlers_view(out.0@) == hs && out.1 == i
                                        + enc_handler_items(hs).len()) by {
                                        let tail = hs.subrange(1, hs.len() as int);
                                        lemma_has_at_split(
                                            tv,
                                            i as int,
                                            enc_handler(hs[0]),
                                            enc_handler_items(tail),
                                        );
                                        let e1 = seq![
                                            SpecToken::S(hs[0].name),
                                            SpecToken::U(hs[0].on_error.len()),
                                        ];
                                        lemma_has_at_split(
                                            tv,
                                            i as int,
                                            e1,
                                            enc_step_items(hs[0].on_error),
                                        );
                                        lemma_has_at_index(tv, i as int, e1, 1);
                                        assert(tail.len() == n - 1);
                                    }
                                }
                                r
                            },
                        }
                    },
                    None => {
                        let r: Option<(Vec<crate::types::ErrorHandler>, usize)> = None;
                        proof {
                            assert forall|hs: Seq<crate::types::SpecErrorHandler>|
                                hs.len() == n && has_at(
                                    tv,
                                    i as int,
                                    #[trigger] enc_handler_items(hs),
                                ) implies (r matches Some(out) && crate::types::handlers_view(
                                out.0@,
                            ) == hs && out.1 == i + enc_handler_items(hs).len()) by {
                                let tail = hs.subrange(1, hs.len() as int);
                                lemma_has_at_split(
                                    tv,
                                    i as int,
                                    enc_handler(hs[0]),
                                    enc_handler_items(tail),
                                );
                                let e1 = seq![
                                    SpecToken::S(hs[0].name),
                                    SpecToken::U(hs[0].on_error.len()),
                                ];
                                lemma_has_at_split(tv, i as int, e1, enc_step_items(hs[0].on_error));
                                lemma_has_at_index(tv, i as int, e1, 1);
                            }
                        }
                        r
                    },
                }
            },
            _ => {
                let r: Option<(Vec<crate::types::ErrorHandler>, usize)> = None;
                proof {
                    assert forall|hs: Seq<crate::types::SpecErrorHandler>|
                        hs.len() == n && has_at(tv, i as int, #[trigger] enc_handler_items(hs))
                        implies (r matches Some(out) && crate::types::handlers_view(out.0@) == hs
                        && out.1 == i + enc_handler_items(hs).len()) by {
                        let tail = hs.subrange(1, hs.len() as int);
                        lemma_has_at_split(tv, i as int, enc_handler(hs[0]), enc_handler_items(tail));
                        let e1 = seq![SpecToken::S(hs[0].name), SpecToken::U(hs[0].on_error.len())];
                        lemma_has_at_split(tv, i as int, e1, enc_step_items(hs[0].on_error));
                        lemma_has_at_index(tv, i as int, e1, 0);
                        lemma_has_at_index(tv, i as int, e1, 1);
                    }
                }
                r
            },
        }
    } else {
        let r: Option<(Vec<crate::types::ErrorHandler>, usize)> = None;
        proof {
            assert forall|hs: Seq<crate::types::SpecErrorHandler>|
                hs.len() == n && has_at(tv, i as int, #[trigger] enc_handler_items(hs)) implies (r
                matches Some(out) && crate::types::handlers_view(out.0@) == hs && out.1 == i
                + enc_handler_items(hs).len()) by {
                let tail = hs.subrange(1, hs.len() as int);
                lemma_has_at_split(tv, i as int, enc_handler(hs[0]), enc_handler_items(tail));
                let e1 = seq![SpecToken::S(hs[0].name), SpecToken::U(hs[0].on_error.len())];
                lemma_has_at_split(tv, i as int, e1, enc_step_items(hs[0].on_error));
                lemma_has_at_index(tv, i as int, e1, 0);
                lemma_has_at_index(tv, i as int, e1, 1);
            }
        }
        r
    }
}

/// Read a whole script from the start of the stream.
///
/// Deserializing a serialized script reproduces an identical value, however
/// deep its conditional and loop nesting: whenever the stream is the
/// encoding of a script, that script comes back.
#[verifier::rlimit(100)]
pub fn decode_script(tokens: &Vec<Token>) -> (r: Option<crate::types::LoginScript>)
    ensures
        forall|s: crate::types::SpecLoginScript|
            toks_view(tokens@) == #[trigger] enc_script(s) ==> (r matches Some(out) && out@ == s),
{
    let ghost tv = toks_view(tokens@);
    let r: Option<crate::types::LoginScript> = match dec_meta(tokens, 0) {
        Some((meta, j1)) => {
            match dec_target(tokens, j1) {
                Some((target, j2)) => {
                    if j2 < tokens.len() {
                        match &tokens[j2] {
                            Token::U(ns) => {
                                match dec_step_items(tokens, j2 + 1, *ns) {
                                    Some((steps, j3)) => {
                                        if j3 < tokens.len() {
                                            match &tokens[j3] {
                                                Token::U(nv) => {
                                                    match dec_validation_items(
                                                        tokens,
                                                        j3 + 1,
                                                        *nv,
                                                    ) {
                                                        Some((validations, j4)) => {
                                                            if j4 < tokens.len() {
                                                                match &tokens[j4] {
                                                                    Token::U(nh) => {
                                                                        match dec_handler_items(
                                                                            tokens,
                                                                            j4 + 1,
                                                                            *nh,
                                                                        ) {
                                                                            Some(
                                                                                (error_handlers, _),
                                                                            ) => Some(
                                                                                crate::types::LoginScript {
                                                                                    meta,
                                                                                    target,
                                                                                    steps,
                                                                                    validations,
                                                                                    error_handlers,
                                                                                },
                                                                            ),
                                                                            None => None,
                                                                        }
                                                                    },
                                                                    _ => None,
                                                                }
                                                            } else {
                                                                None
                                                            }
                                                        },
                                                        None => None,
                                                    }
                                                },
                                                _ => None,
                                            }
                                        } else {
                                            None
                                        }
                                    },
                                    None => None,
                                }
                            },
                            _ => None,
                        }
                    } else {
                        None
                    }
                },
                None => None,
            }
        },
        None => None,
    };
    proof {
        assert forall|s: crate::types::SpecLoginScript|
            tv == #[trigger] enc_script(s) implies (r matches Some(out) && out@ == s) by {
            let e1 = enc_meta(s.meta);
            let e2 = enc_target(s.target);
            let e3 = seq![SpecToken::U(s.steps.len())];
            let e4 = enc_step_items(s.steps);
            let e5 = seq![SpecToken::U(s.validations.len())];
            let e6 = enc_validation_items(s.validations);
            let e7 = seq![SpecToken::U(s.error_handlers.len())];
            let e8 = enc_handler_items(s.error_handlers);
            assert(has_at(tv, 0, enc_script(s))) by {
                assert(tv.subrange(0, enc_script(s).len() as int) =~= enc_script(s));
            }
            lemma_has_at_split(tv, 0, e1 + e2 + e3 + e4 + e5 + e6 + e7, e8);
            lemma_has_at_split(tv, 0, e1 + e2 + e3 + e4 + e5 + e6, e7);
            lemma_has_at_split(tv, 0, e1 + e2 + e3 + e4 + e5, e6);
            lemma_has_at_split(tv, 0, e1 + e2 + e3 + e4, e5);
            lemma_has_at_split(tv, 0, e1 + e2 + e3, e4);
            lemma_has_at_split(tv, 0, e1 + e2, e3);
            lemma_has_at_split(tv, 0, e1, e2);
            lemma_has_at_index(tv, (e1 + e2).len() as int, e3, 0);
            lemma_has_at_index(tv, (e1 + e2 + e3 + e4).len() as int, e5, 0);
            lemma_has_at_index(tv, (e1 + e2 + e3 + e4 + e5 + e6).len() as int, e7, 0);
        }
    }
    r
}

/// Tokens of a credential entry.
pub open spec fn enc_entry(e: SpecCredentialEntry) -> Seq<SpecToken> {
    seq![SpecToken::S(e.id), SpecToken::S(e.username), SpecToken::S(e.secret)] + enc_opt_str(
        e.token,
    ) + enc_opt_str(e.metadata)
}

/// Append an optional string's tokens to `out`.
fn push_opt_str(out: &mut Vec<Token>, o: &Option<String>)
    ensures
        toks_view(final(out)@) == toks_view(old(out)@) + enc_opt_str(o.deep_view()),
{
    match o {
        None => {
            out.push(Token::U(0));
        },
        Some(s) => {
            out.push(Token::U(1));
            out.push(Token::S(s.clone()));
        },
    }
    proof {
        assert(toks_view(out@) =~= toks_view(old(out)@) + enc_opt_str(o.deep_view()));
    }
}

/// Serialize a credential entry to its token stream.
pub fn encode_entry(e: &CredentialEntry) -> (r: Vec<Token>)
    ensures
        toks_view(r@) == enc_entry(e@),
{
    let mut out: Vec<Token> = Vec::new();
    out.push(Token::S(e.id.clone()));
    out.push(Token::S(e.username.clone()));
    out.push(Token::S(e.secret.clone()));
    push_opt_str(&mut out, &e.token);
    push_opt_str(&mut out, &e.metadata);
    proof {
        assert(toks_view(out@) =~= enc_entry(e@));
    }
    out
}

/// Read an optional string at `i`; yields the value and the next position.
fn dec_opt_str(tokens: &Vec<Token>, i: usize) -> (r: Option<(Option<String>, usize)>)
    ensures
        r matches Some(out) ==> i < out.1 <= tokens@.len(),
        forall|o: Option<Seq<char>>|
            has_at(toks_view(tokens@), i as int, #[trigger] enc_opt_str(o)) ==> (r matches Some(out)
                && out.0.deep_view() == o && out.1 == i + enc_opt_str(o).len()),
{
    let r: Option<(Option<String>, usize)> = if i < tokens.len() {
        match &tokens[i] {
            Token::U(flag) => {
                if *flag == 0 {
                    Some((None, i + 1))
                } else if *flag == 1 && i + 1 < tokens.len() {
                    match &tokens[i + 1] {
                        Token::S(s) => Some((Some(s.clone()), i + 2)),
                        _ => None,
                    }
                } else {
                    None
                }
            },
            _ => None,
        }
    } else {
        None
    };
    proof {
        let tv = toks_view(tokens@);
        assert forall|o: Option<Seq<char>>|
            has_at(tv, i as int, #[trigger] enc_opt_str(o)) implies (r matches Some(out)
            && out.0.deep_view() == o && out.1 == i + enc_opt_str(o).len()) by {
            let enc = enc_opt_str(o);
            assert(tv.subrange(i as int, i + enc.len())[0] == tv[i as int]);
            match o {
                None => {
                    assert(tv[i as int] == SpecToken::U(0));
                },
                Some(s) => {
                    assert(tv[i as int] == SpecToken::U(1));
                    assert(tv.subrange(i as int, i + enc.len())[1] == tv[i + 1]);
                    assert(tv[i + 1] == SpecToken::S(s));
                },
            }
        }
    }
    r
}

/// Read a credential entry at the start of the stream.
///
/// Deserializing a serialized entry reproduces an identical value: whenever
/// the stream is the encoding of an entry, that entry comes back.
pub fn decode_entry(tokens: &Vec<Token>) -> (r: Option<CredentialEntry>)
    ensures
        forall|e: SpecCredentialEntry|
            toks_view(tokens@) == #[trigger] enc_entry(e) ==> (r matches Some(out) && out@ == e),
{
    let r: Option<CredentialEntry> = if tokens.len() >= 3 {
        match (&tokens[0], &tokens[1], &tokens[2]) {
            (Token::S(id), Token::S(username), Token::S(secret)) => {
                match dec_opt_str(tokens, 3) {
                    Some((token, next)) => {
                        match dec_opt_str(tokens, next) {
                            Some((metadata, _)) => Some(
                                CredentialEntry {
                                    id: id.clone(),
                                    username: username.clone(),
                                    secret: secret.clone(),
                                    token,
                                    metadata,
                                },
                            ),
                            None => None,
                        }
                    },
                    None => None,
                }
            },
            _ => None,
        }
    } else {
        None
    };
    proof {
        let tv = toks_view(tokens@);
        assert forall|e: SpecCredentialEntry| tv == #[trigger] enc_entry(e) implies (r matches Some(
            out,
        ) && out@ == e) by {
            let enc = enc_entry(e);
            assert(tv[0] == SpecToken::S(e.id));
            assert(tv[1] == SpecToken::S(e.username));
            assert(tv[2] == SpecToken::S(e.secret));
            assert(has_at(tv, 3, enc_opt_str(e.token))) by {
                assert(tv.subrange(3, 3 + enc_opt_str(e.token).len() as int) =~= enc_opt_str(
                    e.token,
                ));
            }
            assert(has_at(
                tv,
                3 + enc_opt_str(e.token).len() as int,
                enc_opt_str(e.metadata),
            )) by {
                assert(tv.subrange(
                    3 + enc_opt_str(e.token).len() as int,
                    3 + enc_opt_str(e.token).len() + enc_opt_str(e.metadata).len() as int,
                ) =~= enc_opt_str(e.metadata));
            }
        }
    }
    r
}

} // verus!
