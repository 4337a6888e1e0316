//! The textual form of an environment specification: an object with an
//! `inherit` member — `true`, `false` or a list of names — and a `vars`
//! member mapping names to values; both members optional, in either
//! order.  The writer emits the canonical form; the reader also accepts
//! surrounding whitespace.

use vstd::prelude::*;

use crate::env::{EnvInherit, EnvSpec};

verus! {

/// The mathematical content of an environment specification: the
/// inheritance kind — nothing, all, or a named list — the names, and the
/// override pairs.
pub open spec fn env_view(e: &EnvSpec) -> (int, Seq<Seq<char>>, Seq<(Seq<char>, Seq<char>)>) {
    (inh_kind(&e.inherit), inh_names(&e.inherit), pairs_view(e.vars@))
}

/// The inheritance policy's kind: nothing, all, or a named list.
pub open spec fn inh_kind(i: &EnvInherit) -> int {
    match i {
        EnvInherit::NoInherit => 0,
        EnvInherit::All => 1,
        EnvInherit::Vars(_) => 2,
    }
}

/// The names of a named inheritance list; empty otherwise.
pub open spec fn inh_names(i: &EnvInherit) -> Seq<Seq<char>> {
    match i {
        EnvInherit::Vars(v) => v.deep_view(),
        _ => Seq::empty(),
    }
}

/// The override pairs as character sequences.
pub open spec fn pairs_view(ps: Seq<(String, String)>) -> Seq<(Seq<char>, Seq<char>)> {
    Seq::new(ps.len(), |i: int| (ps[i].0@, ps[i].1@))
}

/// How one character is written inside a quoted string: quotes and
/// backslashes take a backslash, everything else stands as itself.
pub open spec fn esc_char(c: char) -> Seq<char> {
    if c == '"' || c == '\\' {
        seq!['\\', c]
    } else {
        seq![c]
    }
}

/// How a string's characters are written inside quotes.
pub open spec fn esc(t: Seq<char>) -> Seq<char>
    decreases t.len(),
{
    if t.len() == 0 {
        Seq::empty()
    } else {
        esc_char(t[0]) + esc(t.skip(1))
    }
}

/// A quoted string.
pub open spec fn qstr(t: Seq<char>) -> Seq<char> {
    seq!['"'] + esc(t) + seq!['"']
}

/// The items of a list of quoted names, comma separated.
pub open spec fn ser_names_items(names: Seq<Seq<char>>) -> Seq<char>
    decreases names.len(),
{
    if names.len() == 0 {
        Seq::empty()
    } else if names.len() == 1 {
        qstr(names[0])
    } else {
        qstr(names[0]) + seq![','] + ser_names_items(names.drop_first())
    }
}

/// The members of an object of quoted pairs, comma separated.
pub open spec fn ser_pairs_items(ps: Seq<(Seq<char>, Seq<char>)>) -> Seq<char>
    decreases ps.len(),
{
    if ps.len() == 0 {
        Seq::empty()
    } else if ps.len() == 1 {
        qstr(ps[0].0) + seq![':'] + qstr(ps[0].1)
    } else {
        qstr(ps[0].0) + seq![':'] + qstr(ps[0].1) + seq![','] + ser_pairs_items(ps.drop_first())
    }
}

/// The written form of the inheritance policy.
pub open spec fn ser_inh(k: int, names: Seq<Seq<char>>) -> Seq<char> {
    if k == 0 {
        "false"@
    } else if k == 1 {
        "true"@
    } else {
        seq!['['] + ser_names_items(names) + seq![']']
    }
}

/// The canonical written form of an environment specification.
pub open spec fn ser_env(k: int, names: Seq<Seq<char>>, ps: Seq<(Seq<char>, Seq<char>)>) -> Seq<
    char,
> {
    "{\"inherit\":"@ + ser_inh(k, names) + ",\"vars\":{"@ + ser_pairs_items(ps) + "}}"@
}

/// Writing one more name extends the item list by a comma and the name.
proof fn lemma_names_items_snoc(u: Seq<Seq<char>>, x: Seq<char>)
    ensures
        u.len() == 0 ==> ser_names_items(u.push(x)) == qstr(x),
        u.len() > 0 ==> ser_names_items(u.push(x)) == ser_names_items(u) + seq![','] + qstr(x),
    decreases u.len(),
{
    if u.len() == 0 {
        assert(u.push(x)[0] == x);
        assert(ser_names_items(u.push(x)) == qstr(x));
    } else {
        assert(u.push(x).drop_first() =~= u.drop_first().push(x));
        lemma_names_items_snoc(u.drop_first(), x);
        if u.len() == 1 {
            assert(u.drop_first().len() == 0);
            assert(ser_names_items(u.push(x)) == qstr(u[0]) + seq![','] + ser_names_items(
                u.drop_first().push(x),
            ));
        }
    }
}

/// Writing one more pair extends the member list by a comma and the pair.
proof fn lemma_pairs_items_snoc(u: Seq<(Seq<char>, Seq<char>)>, x: (Seq<char>, Seq<char>))
    ensures
        u.len() == 0 ==> ser_pairs_items(u.push(x)) == qstr(x.0) + seq![':'] + qstr(x.1),
        u.len() > 0 ==> ser_pairs_items(u.push(x)) == ser_pairs_items(u) + seq![','] + qstr(x.0)
            + seq![':'] + qstr(x.1),
    decreases u.len(),
{
    if u.len() == 0 {
        assert(u.push(x)[0] == x);
    } else {
        assert(u.push(x).drop_first() =~= u.drop_first().push(x));
        lemma_pairs_items_snoc(u.drop_first(), x);
        if u.len() == 1 {
            assert(u.drop_first().len() == 0);
        }
    }
}

/// Appending a character to a string appends its escape to the written
/// form.
proof fn lemma_esc_snoc(u: Seq<char>, c: char)
    ensures
        esc(u.push(c)) == esc(u) + esc_char(c),
    decreases u.len(),
{
    if u.len() == 0 {
        assert(u.push(c)[0] == c);
        assert(u.push(c).skip(1) =~= Seq::<char>::empty());
        assert(esc(Seq::<char>::empty()) == Seq::<char>::empty());
        assert(esc(u.push(c)) == esc_char(c) + esc(Seq::<char>::empty()));
        assert(esc(u.push(c)) =~= esc_char(c));
        assert(esc(u) + esc_char(c) =~= esc_char(c));
    } else {
        assert(u.push(c).skip(1) =~= u.skip(1).push(c));
        lemma_esc_snoc(u.skip(1), c);
        assert(esc(u.push(c)) == esc_char(u[0]) + (esc(u.skip(1)) + esc_char(c)));
        assert(esc_char(u[0]) + (esc(u.skip(1)) + esc_char(c)) =~= (esc_char(u[0]) + esc(
            u.skip(1),
        )) + esc_char(c));
    }
}

/// Writes a string in quotes, escaping quotes and backslashes.
#[verifier::loop_isolation(false)]
fn write_qstr(out: &mut String, t: &str)
    ensures
        final(out)@ == old(out)@ + qstr(t@),
{
    out.append("\"");
    proof {
        reveal_strlit("\"");
        assert(t@.take(0) =~= Seq::<char>::empty());
        assert(out@ =~= old(out)@ + seq!['"'] + esc(t@.take(0)));
    }
    let n = t.unicode_len();
    let mut i: usize = 0;
    while i < n
        invariant
            0 <= i <= n,
            n == t@.len(),
            out@ == old(out)@ + seq!['"'] + esc(t@.take(i as int)),
        decreases n - i,
    {
        let c = t.get_char(i);
        proof {
            assert(t@.take(i + 1).drop_last() =~= t@.take(i as int));
            assert(t@.take(i + 1) =~= t@.take(i as int).push(t@[i as int]));
            lemma_esc_snoc(t@.take(i as int), t@[i as int]);
        }
        if c == '"' {
            out.append("\\\"");
            proof {
                reveal_strlit("\\\"");
                assert("\\\""@ =~= esc_char('"'));
                assert(out@ =~= old(out)@ + seq!['"'] + esc(t@.take(i + 1)));
            }
        } else if c == '\\' {
            out.append("\\\\");
            proof {
                reveal_strlit("\\\\");
                assert("\\\\"@ =~= esc_char('\\'));
                assert(out@ =~= old(out)@ + seq!['"'] + esc(t@.take(i + 1)));
            }
        } else {
            let piece = t.substring_char(i, i + 1);
            out.append(piece);
            proof {
                assert(piece@ =~= esc_char(t@[i as int]));
                assert(out@ =~= old(out)@ + seq!['"'] + esc(t@.take(i + 1)));
            }
        }
        i += 1;
    }
    out.append("\"");
    proof {
        assert(t@.take(n as int) =~= t@);
        assert(out@ =~= old(out)@ + qstr(t@));
    }
}

/// Writes an environment specification in its canonical form.
#[verifier::loop_isolation(false)]
pub fn serialize_env_spec(e: &EnvSpec) -> (r: String)
    ensures
        ({
            let (k, names, ps) = env_view(e);
            r@ == ser_env(k, names, ps)
        }),
{
    let ghost k = inh_kind(&e.inherit);
    let ghost names = inh_names(&e.inherit);
    let mut out = String::new();
    out.append("{\"inherit\":");
    proof {
        reveal_strlit("{\"inherit\":");
    }
    match &e.inherit {
        EnvInherit::NoInherit => {
            out.append("false");
            proof {
                reveal_strlit("false");
                assert(out@ =~= "{\"inherit\":"@ + ser_inh(k, names));
            }
        },
        EnvInherit::All => {
            out.append("true");
            proof {
                reveal_strlit("true");
                assert(out@ =~= "{\"inherit\":"@ + ser_inh(k, names));
            }
        },
        EnvInherit::Vars(list) => {
            out.append("[");
            proof {
                reveal_strlit("[");
                assert(list.deep_view().take(0) =~= Seq::<Seq<char>>::empty());
                assert(out@ =~= "{\"inherit\":"@ + seq!['['] + ser_names_items(
                    list.deep_view().take(0),
                ));
            }
            let mut i: usize = 0;
            while i < list.len()
                invariant
                    0 <= i <= list@.len(),
                    list.deep_view().len() == list@.len(),
                    out@ == "{\"inherit\":"@ + seq!['['] + ser_names_items(
                        list.deep_view().take(i as int),
                    ),
                decreases list@.len() - i,
            {
                proof {
                    assert(list.deep_view().take(i + 1) =~= list.deep_view().take(
                        i as int,
                    ).push(list.deep_view()[i as int]));
                    lemma_names_items_snoc(
                        list.deep_view().take(i as int),
                        list.deep_view()[i as int],
                    );
                    assert(list.deep_view()[i as int] == list@[i as int]@);
                }
                if i > 0 {
                    out.append(",");
                    proof {
                        reveal_strlit(",");
                    }
                }
                write_qstr(&mut out, list[i].as_str());
                proof {
                    assert(out@ =~= "{\"inherit\":"@ + seq!['['] + ser_names_items(
                        list.deep_view().take(i + 1),
                    ));
                }
                i += 1;
            }
            out.append("]");
            proof {
                reveal_strlit("]");
                assert(list.deep_view().take(list@.len() as int) =~= list.deep_view());
                assert(out@ =~= "{\"inherit\":"@ + ser_inh(k, names));
            }
        },
    }
    out.append(",\"vars\":{");
    proof {
        reveal_strlit(",\"vars\":{");
        assert(pairs_view(e.vars@).take(0) =~= Seq::<(Seq<char>, Seq<char>)>::empty());
        assert(out@ =~= "{\"inherit\":"@ + ser_inh(k, names) + ",\"vars\":{"@ + ser_pairs_items(
            pairs_view(e.vars@).take(0),
        ));
    }
    let mut i: usize = 0;
    while i < e.vars.len()
        invariant
            0 <= i <= e.vars@.len(),
            out@ == "{\"inherit\":"@ + ser_inh(k, names) + ",\"vars\":{"@ + ser_pairs_items(
                pairs_view(e.vars@).take(i as int),
            ),
        decreases e.vars@.len() - i,
    {
        proof {
            assert(pairs_view(e.vars@).take(i + 1) =~= pairs_view(e.vars@).take(i as int).push(
                pairs_view(e.vars@)[i as int],
            ));
            lemma_pairs_items_snoc(
                pairs_view(e.vars@).take(i as int),
                pairs_view(e.vars@)[i as int],
            );
        }
        if i > 0 {
            out.append(",");
            proof {
                reveal_strlit(",");
            }
        }
        write_qstr(&mut out, e.vars[i].0.as_str());
        out.append(":");
        proof {
            reveal_strlit(":");
        }
        write_qstr(&mut out, e.vars[i].1.as_str());
        proof {
            assert(out@ =~= "{\"inherit\":"@ + ser_inh(k, names) + ",\"vars\":{"@
                + ser_pairs_items(pairs_view(e.vars@).take(i + 1)));
        }
        i += 1;
    }
    out.append("}}");
    proof {
        reveal_strlit("}}");
        assert(pairs_view(e.vars@).take(e.vars@.len() as int) =~= pairs_view(e.vars@));
        assert(out@ =~= ser_env(k, names, pairs_view(e.vars@)));
    }
    out
}

/// Whitespace accepted between tokens.
pub open spec fn is_ws(c: char) -> bool {
    c == ' ' || c == '\t' || c == '\n' || c == '\r'
}

/// The first position at or after `i` holding no whitespace.
pub open spec fn skip_ws(s: Seq<char>, i: int) -> int
    decreases s.len() - i,
{
    if 0 <= i < s.len() && is_ws(s[i]) {
        skip_ws(s, i + 1)
    } else {
        i
    }
}

/// Skipping whitespace never moves backwards and never leaves the text.
pub proof fn lemma_skip_ws_bounds(s: Seq<char>, i: int)
    ensures
        skip_ws(s, i) >= i,
        i <= s.len() ==> skip_ws(s, i) <= s.len(),
    decreases s.len() - i,
{
    if 0 <= i < s.len() && is_ws(s[i]) {
        lemma_skip_ws_bounds(s, i + 1);
    }
}

/// Whether the given literal stands at a position.
pub open spec fn lit_at(s: Seq<char>, i: int, lit: Seq<char>) -> bool {
    0 <= i && i + lit.len() <= s.len() && s.subrange(i, i + lit.len()) == lit
}

/// Reads a quoted string starting at its opening quote.
pub open spec fn p_str(s: Seq<char>, i: int) -> Option<(Seq<char>, int)> {
    if 0 <= i < s.len() && s[i] == '"' {
        p_strbody(s, i + 1)
    } else {
        None
    }
}

/// Reads the rest of a quoted string: an unescaped quote ends it, a
/// backslash takes the next character literally.
pub open spec fn p_strbody(s: Seq<char>, i: int) -> Option<(Seq<char>, int)>
    decreases s.len() - i,
{
    if i < 0 || i >= s.len() {
        None
    } else if s[i] == '"' {
        Some((Seq::empty(), i + 1))
    } else if s[i] == '\\' {
        if i + 1 < s.len() {
            match p_strbody(s, i + 2) {
                Some((t, j)) => Some((seq![s[i + 1]] + t, j)),
                None => None,
            }
        } else {
            None
        }
    } else {
        match p_strbody(s, i + 1) {
            Some((t, j)) => Some((seq![s[i]] + t, j)),
            None => None,
        }
    }
}

/// A string read ends after its opening position and within the text.
pub proof fn lemma_strbody_advances(s: Seq<char>, i: int)
    ensures
        match p_strbody(s, i) {
            Some((t, j)) => i < j <= s.len(),
            None => true,
        },
    decreases s.len() - i,
{
    if 0 <= i < s.len() {
        if s[i] == '\\' {
            if i + 1 < s.len() {
                lemma_strbody_advances(s, i + 2);
            }
        } else {
            lemma_strbody_advances(s, i + 1);
        }
    }
}

/// Reads the names of a non-empty inheritance list, starting after the
/// opening bracket or after a comma.
pub open spec fn p_names_rest(s: Seq<char>, i: int) -> Option<(Seq<Seq<char>>, int)>
    decreases s.len() - i,
    when i >= 0
    via p_names_rest_dec
{
    let j = skip_ws(s, i);
    match p_str(s, j) {
        None => None,
        Some((t, m)) => {
            let k = skip_ws(s, m);
            if k < s.len() && s[k] == ',' {
                match p_names_rest(s, k + 1) {
                    Some((ts, e)) => Some((seq![t] + ts, e)),
                    None => None,
                }
            } else if k < s.len() && s[k] == ']' {
                Some((seq![t], k + 1))
            } else {
                None
            }
        },
    }
}

#[via_fn]
proof fn p_names_rest_dec(s: Seq<char>, i: int) {
    lemma_skip_ws_bounds(s, i);
    let j = skip_ws(s, i);
    if 0 <= j < s.len() && s[j] == '"' {
        lemma_strbody_advances(s, j + 1);
        match p_str(s, j) {
            Some((t, m)) => {
                lemma_skip_ws_bounds(s, m);
            },
            None => {},
        }
    }
}

/// Reads the members of a non-empty overrides object, starting after the
/// opening brace or after a comma.
pub open spec fn p_pairs_rest(s: Seq<char>, i: int) -> Option<(Seq<(Seq<char>, Seq<char>)>, int)>
    decreases s.len() - i,
    when i >= 0
    via p_pairs_rest_dec
{
    let j = skip_ws(s, i);
    match p_str(s, j) {
        None => None,
        Some((t, m)) => {
            let k = skip_ws(s, m);
            if k < s.len() && s[k] == ':' {
                let j2 = skip_ws(s, k + 1);
                match p_str(s, j2) {
                    None => None,
                    Some((v, m2)) => {
                        let k2 = skip_ws(s, m2);
                        if k2 < s.len() && s[k2] == ',' {
                            match p_pairs_rest(s, k2 + 1) {
                                Some((ps, e)) => Some((seq![(t, v)] + ps, e)),
                                None => None,
                            }
                        } else if k2 < s.len() && s[k2] == '}' {
                            Some((seq![(t, v)], k2 + 1))
                        } else {
                            None
                        }
                    },
                }
            } else {
                None
            }
        },
    }
}

#[via_fn]
proof fn p_pairs_rest_dec(s: Seq<char>, i: int) {
    lemma_skip_ws_bounds(s, i);
    let j = skip_ws(s, i);
    if 0 <= j < s.len() && s[j] == '"' {
        lemma_strbody_advances(s, j + 1);
        match p_str(s, j) {
            Some((t, m)) => {
                lemma_skip_ws_bounds(s, m);
                let k = skip_ws(s, m);
                lemma_skip_ws_bounds(s, k + 1);
                let j2 = skip_ws(s, k + 1);
                if 0 <= j2 < s.len() && s[j2] == '"' {
                    lemma_strbody_advances(s, j2 + 1);
                    match p_str(s, j2) {
                        Some((v, m2)) => {
                            lemma_skip_ws_bounds(s, m2);
                        },
                        None => {},
                    }
                }
            },
            None => {},
        }
    }
}

/// Reads an inheritance list: empty, or names up to the closing bracket.
pub open spec fn p_names_after(s: Seq<char>, i: int) -> Option<(Seq<Seq<char>>, int)>
    recommends
        i >= 0,
{
    let j = skip_ws(s, i);
    if j < s.len() && s[j] == ']' {
        Some((Seq::empty(), j + 1))
    } else {
        p_names_rest(s, i)
    }
}

/// Reads an overrides object body: empty, or pairs up to the closing
/// brace.
pub open spec fn p_pairs_after(s: Seq<char>, i: int) -> Option<(Seq<(Seq<char>, Seq<char>)>, int)>
    recommends
        i >= 0,
{
    let j = skip_ws(s, i);
    if j < s.len() && s[j] == '}' {
        Some((Seq::empty(), j + 1))
    } else {
        p_pairs_rest(s, i)
    }
}

/// Reads an inheritance value: `true`, `false`, or a list of names.
pub open spec fn p_inh_value(s: Seq<char>, i: int) -> Option<((int, Seq<Seq<char>>), int)>
    recommends
        i >= 0,
{
    let j = skip_ws(s, i);
    if lit_at(s, j, "true"@) {
        Some(((1int, Seq::empty()), j + 4))
    } else if lit_at(s, j, "false"@) {
        Some(((0int, Seq::empty()), j + 5))
    } else if j < s.len() && s[j] == '[' {
        match p_names_after(s, j + 1) {
            Some((ns, e)) => Some(((2int, ns), e)),
            None => None,
        }
    } else {
        None
    }
}

/// Reads an overrides value: an object of name/value pairs.
pub open spec fn p_vars_value(s: Seq<char>, i: int) -> Option<(Seq<(Seq<char>, Seq<char>)>, int)>
    recommends
        i >= 0,
{
    let j = skip_ws(s, i);
    if j < s.len() && s[j] == '{' {
        p_pairs_after(s, j + 1)
    } else {
        None
    }
}

/// Reads a whole environment specification: an object with an `inherit`
/// and a `vars` member, each optional, in either order, each at most
/// once; an absent `inherit` means everything is inherited, an absent
/// `vars` means no overrides.  Nothing may follow but whitespace.
pub open spec fn p_env(s: Seq<char>) -> Option<(int, Seq<Seq<char>>, Seq<(Seq<char>, Seq<char>)>)> {
    let i0 = skip_ws(s, 0);
    if !(i0 < s.len() && s[i0] == '{') {
        None
    } else {
        let i1 = skip_ws(s, i0 + 1);
        if i1 < s.len() && s[i1] == '}' {
            if skip_ws(s, i1 + 1) == s.len() {
                Some((1int, Seq::empty(), Seq::empty()))
            } else {
                None
            }
        } else {
            match p_str(s, i1) {
                None => None,
                Some((key1, m1)) => {
                    let c1 = skip_ws(s, m1);
                    if !(c1 < s.len() && s[c1] == ':') {
                        None
                    } else if key1 == "inherit"@ {
                        match p_inh_value(s, c1 + 1) {
                            None => None,
                            Some(((k, ns), e1)) => p_env_after_inherit(s, e1, k, ns),
                        }
                    } else if key1 == "vars"@ {
                        match p_vars_value(s, c1 + 1) {
                            None => None,
                            Some((ps, e1)) => p_env_after_vars(s, e1, ps),
                        }
                    } else {
                        None
                    }
                },
            }
        }
    }
}

/// After an `inherit` member: the object closes, or a `vars` member
/// follows.
pub open spec fn p_env_after_inherit(s: Seq<char>, e1: int, k: int, ns: Seq<Seq<char>>) -> Option<
    (int, Seq<Seq<char>>, Seq<(Seq<char>, Seq<char>)>),
> {
    let d1 = skip_ws(s, e1);
    if d1 < s.len() && s[d1] == '}' {
        if skip_ws(s, d1 + 1) == s.len() {
            Some((k, ns, Seq::empty()))
        } else {
            None
        }
    } else if d1 < s.len() && s[d1] == ',' {
        let i2 = skip_ws(s, d1 + 1);
        match p_str(s, i2) {
            None => None,
            Some((key2, m2)) => {
                let c2 = skip_ws(s, m2);
                if !(c2 < s.len() && s[c2] == ':') {
                    None
                } else if key2 == "vars"@ {
                    match p_vars_value(s, c2 + 1) {
                        None => None,
                        Some((ps, e2)) => {
                            let d2 = skip_ws(s, e2);
                            if d2 < s.len() && s[d2] == '}' && skip_ws(s, d2 + 1) == s.len() {
                                Some((k, ns, ps))
                            } else {
                                None
                            }
                        },
                    }
                } else {
                    None
                }
            },
        }
    } else {
        None
    }
}

/// After a `vars` member: the object closes, or an `inherit` member
/// follows.
pub open spec fn p_env_after_vars(s: Seq<char>, e1: int, ps: Seq<(Seq<char>, Seq<char>)>) -> Option<
    (int, Seq<Seq<char>>, Seq<(Seq<char>, Seq<char>)>),
> {
    let d1 = skip_ws(s, e1);
    if d1 < s.len() && s[d1] == '}' {
        if skip_ws(s, d1 + 1) == s.len() {
            Some((1int, Seq::empty(), ps))
        } else {
            None
        }
    } else if d1 < s.len() && s[d1] == ',' {
        let i2 = skip_ws(s, d1 + 1);
        match p_str(s, i2) {
            None => None,
            Some((key2, m2)) => {
                let c2 = skip_ws(s, m2);
                if !(c2 < s.len() && s[c2] == ':') {
                    None
                } else if key2 == "inherit"@ {
                    match p_inh_value(s, c2 + 1) {
                        None => None,
                        Some(((k, ns), e2)) => {
                            let d2 = skip_ws(s, e2);
                            if d2 < s.len() && s[d2] == '}' && skip_ws(s, d2 + 1) == s.len() {
                                Some((k, ns, ps))
                            } else {
                                None
                            }
                        },
                    }
                } else {
                    None
                }
            },
        }
    } else {
        None
    }
}

/// Whether a character is whitespace.
fn ws_char(c: char) -> (r: bool)
    ensures
        r == is_ws(c),
{
    c == ' ' || c == '\t' || c == '\n' || c == '\r'
}

/// Skips whitespace from a position.
#[verifier::loop_isolation(false)]
fn x_skip(s: &str, i: usize) -> (r: usize)
    requires
        i <= s@.len(),
    ensures
        r as int == skip_ws(s@, i as int),
        i <= r <= s@.len(),
{
    let n = s.unicode_len();
    let mut j: usize = i;
    while j < n && ws_char(s.get_char(j))
        invariant
            i <= j <= n,
            n == s@.len(),
            skip_ws(s@, i as int) == skip_ws(s@, j as int),
        decreases n - j,
    {
        j += 1;
    }
    proof {
        lemma_skip_ws_bounds(s@, i as int);
    }
    j
}

/// Reads a quoted string starting at its opening quote.
#[verifier::loop_isolation(false)]
fn x_qstr(s: &str, i: usize) -> (r: Option<(String, usize)>)
    requires
        i <= s@.len(),
    ensures
        match r {
            Some((t, j)) => p_str(s@, i as int) == Some((t@, j as int)) && i < j <= s@.len(),
            None => p_str(s@, i as int) is None,
        },
{
    let n = s.unicode_len();
    if !(i < n && s.get_char(i) == '"') {
        return None;
    }
    let mut out = String::new();
    let mut cur: usize = i + 1;
    while cur < n
        invariant
            i + 1 <= cur <= n,
            n == s@.len(),
            match p_strbody(s@, cur as int) {
                Some((t, j)) => p_strbody(s@, i + 1) == Some((out@ + t, j)),
                None => p_strbody(s@, i + 1) is None,
            },
        decreases n - cur,
    {
        let c = s.get_char(cur);
        if c == '"' {
            proof {
                assert(p_strbody(s@, cur as int) == Some((Seq::<char>::empty(), cur + 1)));
                assert(out@ + Seq::<char>::empty() =~= out@);
                lemma_strbody_advances(s@, i + 1);
            }
            return Some((out, cur + 1));
        } else if c == '\\' {
            if cur + 1 < n {
                let ghost before = out@;
                let piece = s.substring_char(cur + 1, cur + 2);
                out.append(piece);
                proof {
                    assert(piece@ =~= seq![s@[cur + 1]]);
                    assert forall|t: Seq<char>, j: int|
                        p_strbody(s@, cur + 2) == Some((t, j)) implies before + (seq![s@[cur + 1]]
                        + t) =~= out@ + t by {}
                }
                cur = cur + 2;
            } else {
                return None;
            }
        } else {
            let ghost before = out@;
            let piece = s.substring_char(cur, cur + 1);
            out.append(piece);
            proof {
                assert(piece@ =~= seq![s@[cur as int]]);
                assert forall|t: Seq<char>, j: int|
                    p_strbody(s@, cur + 1) == Some((t, j)) implies before + (seq![s@[cur as int]]
                    + t) =~= out@ + t by {}
            }
            cur = cur + 1;
        }
    }
    None
}

/// Reads an inheritance list body, after the opening bracket.
#[verifier::loop_isolation(false)]
fn x_names_after(s: &str, i: usize) -> (r: Option<(Vec<String>, usize)>)
    requires
        i <= s@.len(),
    ensures
        match r {
            Some((ns, e)) => p_names_after(s@, i as int) == Some((ns.deep_view(), e as int)) && i
                < e <= s@.len(),
            None => p_names_after(s@, i as int) is None,
        },
{
    let n = s.unicode_len();
    let j0 = x_skip(s, i);
    if j0 < n && s.get_char(j0) == ']' {
        let ns: Vec<String> = Vec::new();
        proof {
            assert(ns.deep_view() =~= Seq::<Seq<char>>::empty());
        }
        return Some((ns, j0 + 1));
    }
    let mut acc: Vec<String> = Vec::new();
    let mut cur: usize = i;
    loop
        invariant
            i <= cur <= n,
            n == s@.len(),
            match p_names_rest(s@, cur as int) {
                Some((ts, e)) => p_names_rest(s@, i as int) == Some((acc.deep_view() + ts, e)),
                None => p_names_rest(s@, i as int) is None,
            },
            p_names_after(s@, i as int) == p_names_rest(s@, i as int),
        decreases n - cur,
    {
        let j = x_skip(s, cur);
        match x_qstr(s, j) {
            None => {
                return None;
            },
            Some((t, m)) => {
                let k = x_skip(s, m);
                if k < n && s.get_char(k) == ',' {
                    let ghost accv = acc.deep_view();
                    acc.push(t);
                    proof {
                        assert(acc.deep_view() =~= accv.push(t@));
                        assert forall|ts: Seq<Seq<char>>, e: int|
                            p_names_rest(s@, k + 1) == Some((ts, e)) implies accv + (seq![t@] + ts)
                            =~= acc.deep_view() + ts by {}
                    }
                    if k + 1 > cur {
                        cur = k + 1;
                    } else {
                        proof {
                            assert(false);
                        }
                    }
                } else if k < n && s.get_char(k) == ']' {
                    let ghost accv = acc.deep_view();
                    acc.push(t);
                    proof {
                        assert(p_names_rest(s@, cur as int) == Some((seq![t@], k + 1)));
                        assert(accv + seq![t@] =~= acc.deep_view());
                        lemma_skip_ws_bounds(s@, i as int);
                    }
                    return Some((acc, k + 1));
                } else {
                    return None;
                }
            },
        }
    }
}

/// Reads an overrides object body, after the opening brace.
#[verifier::loop_isolation(false)]
fn x_pairs_after(s: &str, i: usize) -> (r: Option<(Vec<(String, String)>, usize)>)
    requires
        i <= s@.len(),
    ensures
        match r {
            Some((ps, e)) => p_pairs_after(s@, i as int) == Some((pairs_view(ps@), e as int)) && i
                < e <= s@.len(),
            None => p_pairs_after(s@, i as int) is None,
        },
{
    let n = s.unicode_len();
    let j0 = x_skip(s, i);
    if j0 < n && s.get_char(j0) == '}' {
        let ps: Vec<(String, String)> = Vec::new();
        proof {
            assert(pairs_view(ps@) =~= Seq::<(Seq<char>, Seq<char>)>::empty());
        }
        return Some((ps, j0 + 1));
    }
    let mut acc: Vec<(String, String)> = Vec::new();
    let mut cur: usize = i;
    loop
        invariant
            i <= cur <= n,
            n == s@.len(),
            match p_pairs_rest(s@, cur as int) {
                Some((ts, e)) => p_pairs_rest(s@, i as int) == Some((pairs_view(acc@) + ts, e)),
                None => p_pairs_rest(s@, i as int) is None,
            },
            p_pairs_after(s@, i as int) == p_pairs_rest(s@, i as int),
        decreases n - cur,
    {
        let j = x_skip(s, cur);
        match x_qstr(s, j) {
            None => {
                return None;
            },
            Some((t, m)) => {
                let k = x_skip(s, m);
                if !(k < n && s.get_char(k) == ':') {
                    return None;
                }
                let j2 = x_skip(s, k + 1);
                match x_qstr(s, j2) {
                    None => {
                        return None;
                    },
                    Some((v, m2)) => {
                        let k2 = x_skip(s, m2);
                        if k2 < n && s.get_char(k2) == ',' {
                            let ghost accv = pairs_view(acc@);
                            acc.push((t, v));
                            proof {
                                assert(pairs_view(acc@) =~= accv.push((t@, v@)));
                                assert forall|ts: Seq<(Seq<char>, Seq<char>)>, e: int|
                                    p_pairs_rest(s@, k2 + 1) == Some((ts, e)) implies accv + (seq![
                                    (t@, v@),
                                ] + ts) =~= pairs_view(acc@) + ts by {}
                            }
                            if k2 + 1 > cur {
                                cur = k2 + 1;
                            } else {
                                proof {
                                    assert(false);
                                }
                            }
                        } else if k2 < n && s.get_char(k2) == '}' {
                            let ghost accv = pairs_view(acc@);
                            acc.push((t, v));
                            proof {
                                assert(p_pairs_rest(s@, cur as int) == Some(
                                    (seq![(t@, v@)], k2 + 1),
                                ));
                                assert(accv + seq![(t@, v@)] =~= pairs_view(acc@));
                            }
                            return Some((acc, k2 + 1));
                        } else {
                            return None;
                        }
                    },
                }
            },
        }
    }
}

/// Reads an inheritance value.
fn x_inh_value(s: &str, i: usize) -> (r: Option<(EnvInherit, usize)>)
    requires
        i <= s@.len(),
    ensures
        match r {
            Some((inh, e)) => p_inh_value(s@, i as int) == Some(
                ((inh_kind(&inh), inh_names(&inh)), e as int),
            ) && e <= s@.len(),
            None => p_inh_value(s@, i as int) is None,
        },
{
    let n = s.unicode_len();
    let j = x_skip(s, i);
    proof {
        reveal_strlit("true");
        reveal_strlit("false");
    }
    if n - j >= 4 && crate::fd::str_eq(s.substring_char(j, j + 4), "true") {
        proof {
            assert(lit_at(s@, j as int, "true"@));
            assert(inh_names(&EnvInherit::All) =~= Seq::<Seq<char>>::empty());
        }
        Some((EnvInherit::All, j + 4))
    } else if n - j >= 5 && crate::fd::str_eq(s.substring_char(j, j + 5), "false") {
        proof {
            assert(!lit_at(s@, j as int, "true"@)) by {
                if lit_at(s@, j as int, "true"@) {
                    assert(s@.subrange(j as int, j + 4)[0] == 't');
                    assert(s@.subrange(j as int, j + 5)[0] == 'f');
                }
            }
            assert(lit_at(s@, j as int, "false"@));
            assert(inh_names(&EnvInherit::NoInherit) =~= Seq::<Seq<char>>::empty());
        }
        Some((EnvInherit::NoInherit, j + 5))
    } else if j < n && s.get_char(j) == '[' {
        proof {
            assert(!lit_at(s@, j as int, "true"@)) by {
                if lit_at(s@, j as int, "true"@) {
                    assert(s@.subrange(j as int, j + 4)[0] == 't');
                }
            }
            assert(!lit_at(s@, j as int, "false"@)) by {
                if lit_at(s@, j as int, "false"@) {
                    assert(s@.subrange(j as int, j + 5)[0] == 'f');
                }
            }
        }
        match x_names_after(s, j + 1) {
            Some((ns, e)) => Some((EnvInherit::Vars(ns), e)),
            None => None,
        }
    } else {
        proof {
            assert(!lit_at(s@, j as int, "true"@)) by {
                if lit_at(s@, j as int, "true"@) {
                    assert(s@.subrange(j as int, j + 4)[0] == 't');
                    assert(s@[j as int] == 't');
                }
            }
            assert(!lit_at(s@, j as int, "false"@)) by {
                if lit_at(s@, j as int, "false"@) {
                    assert(s@.subrange(j as int, j + 5)[0] == 'f');
                    assert(s@[j as int] == 'f');
                }
            }
        }
        None
    }
}

/// Reads a whole environment specification from text: the object form
/// with optional `inherit` and `vars` members; whitespace is accepted
/// around tokens; anything else rejects the text.
pub fn parse_env_spec(s: &str) -> (r: Option<EnvSpec>)
    ensures
        match r {
            Some(e) => p_env(s@) == Some(env_view(&e)),
            None => p_env(s@) is None,
        },
{
    let n = s.unicode_len();
    let i0 = x_skip(s, 0);
    if !(i0 < n && s.get_char(i0) == '{') {
        return None;
    }
    let i1 = x_skip(s, i0 + 1);
    if i1 < n && s.get_char(i1) == '}' {
        if x_skip(s, i1 + 1) == n {
            let e = EnvSpec { inherit: EnvInherit::All, vars: Vec::new() };
            proof {
                assert(inh_names(&e.inherit) =~= Seq::<Seq<char>>::empty());
                assert(pairs_view(e.vars@) =~= Seq::<(Seq<char>, Seq<char>)>::empty());
            }
            return Some(e);
        } else {
            return None;
        }
    }
    let (key1, m1) = match x_qstr(s, i1) {
        Some(km) => km,
        None => {
            return None;
        },
    };
    let c1 = x_skip(s, m1);
    if !(c1 < n && s.get_char(c1) == ':') {
        return None;
    }
    proof {
        reveal_strlit("inherit");
        reveal_strlit("vars");
    }
    if crate::fd::str_eq(key1.as_str(), "inherit") {
        let (inh, e1) = match x_inh_value(s, c1 + 1) {
            Some(x) => x,
            None => {
                return None;
            },
        };
        let d1 = x_skip(s, e1);
        if d1 < n && s.get_char(d1) == '}' {
            if x_skip(s, d1 + 1) == n {
                let e = EnvSpec { inherit: inh, vars: Vec::new() };
                proof {
                    assert(pairs_view(e.vars@) =~= Seq::<(Seq<char>, Seq<char>)>::empty());
                }
                return Some(e);
            } else {
                return None;
            }
        } else if d1 < n && s.get_char(d1) == ',' {
            let i2 = x_skip(s, d1 + 1);
            let (key2, m2) = match x_qstr(s, i2) {
                Some(km) => km,
                None => {
                    return None;
                },
            };
            let c2 = x_skip(s, m2);
            if !(c2 < n && s.get_char(c2) == ':') {
                return None;
            }
            if !crate::fd::str_eq(key2.as_str(), "vars") {
                return None;
            }
            let (vars, e2) = match x_vars_value(s, c2 + 1) {
                Some(x) => x,
                None => {
                    return None;
                },
            };
            let d2 = x_skip(s, e2);
            if d2 < n && s.get_char(d2) == '}' && x_skip(s, d2 + 1) == n {
                return Some(EnvSpec { inherit: inh, vars });
            } else {
                return None;
            }
        } else {
            return None;
        }
    } else if crate::fd::str_eq(key1.as_str(), "vars") {
        proof {
            assert(key1@ != "inherit"@) by {
                if key1@ == "inherit"@ {
                    assert(key1@[0] == 'i');
                    assert("vars"@[0] == 'v');
                }
            }
        }
        let (vars, e1) = match x_vars_value(s, c1 + 1) {
            Some(x) => x,
            None => {
                return None;
            },
        };
        let d1 = x_skip(s, e1);
        if d1 < n && s.get_char(d1) == '}' {
            if x_skip(s, d1 + 1) == n {
                let e = EnvSpec { inherit: EnvInherit::All, vars };
                proof {
                    assert(inh_names(&e.inherit) =~= Seq::<Seq<char>>::empty());
                }
                return Some(e);
            } else {
                return None;
            }
        } else if d1 < n && s.get_char(d1) == ',' {
            let i2 = x_skip(s, d1 + 1);
            let (key2, m2) = match x_qstr(s, i2) {
                Some(km) => km,
                None => {
                    return None;
                },
            };
            let c2 = x_skip(s, m2);
            if !(c2 < n && s.get_char(c2) == ':') {
                return None;
            }
            if !crate::fd::str_eq(key2.as_str(), "inherit") {
                return None;
            }
            let (inh, e2) = match x_inh_value(s, c2 + 1) {
                Some(x) => x,
                None => {
                    return None;
                },
            };
            let d2 = x_skip(s, e2);
            if d2 < n && s.get_char(d2) == '}' && x_skip(s, d2 + 1) == n {
                return Some(EnvSpec { inherit: inh, vars });
            } else {
                return None;
            }
        } else {
            return None;
        }
    } else {
        return None;
    }
}

/// Reads an overrides value.
fn x_vars_value(s: &str, i: usize) -> (r: Option<(Vec<(String, String)>, usize)>)
    requires
        i <= s@.len(),
    ensures
        match r {
            Some((ps, e)) => p_vars_value(s@, i as int) == Some((pairs_view(ps@), e as int)) && e
                <= s@.len(),
            None => p_vars_value(s@, i as int) is None,
        },
{
    let n = s.unicode_len();
    let j = x_skip(s, i);
    if j < n && s.get_char(j) == '{' {
        x_pairs_after(s, j + 1)
    } else {
        None
    }
}


/// A window into a known stretch of the text equals the same window of
/// the known content.
proof fn lemma_sub_inner(s: Seq<char>, i: int, w: Seq<char>, a: int, b: int)
    requires
        0 <= i,
        i + w.len() <= s.len(),
        s.subrange(i, i + w.len()) == w,
        0 <= a <= b <= w.len(),
    ensures
        s.subrange(i + a, i + b) == w.subrange(a, b),
{
    assert forall|u: int| 0 <= u < b - a implies s.subrange(i + a, i + b)[u] == w.subrange(
        a,
        b,
    )[u] by {
        assert(s.subrange(i, i + w.len())[a + u] == s[i + a + u]);
        assert(s.subrange(i + a, i + b)[u] == s[i + a + u]);
    }
    assert(s.subrange(i + a, i + b) =~= w.subrange(a, b));
}

/// A string without quotes or backslashes is written as itself.
proof fn lemma_esc_plain(t: Seq<char>)
    requires
        forall|j: int| 0 <= j < t.len() ==> t[j] != '"' && #[trigger] t[j] != '\\',
    ensures
        esc(t) == t,
    decreases t.len(),
{
    if t.len() > 0 {
        assert(forall|j: int|
            0 <= j < t.skip(1).len() ==> #[trigger] t.skip(1)[j] == t[j + 1]);
        lemma_esc_plain(t.skip(1));
        assert(esc(t) == seq![t[0]] + t.skip(1));
        assert(seq![t[0]] + t.skip(1) =~= t);
    }
}

/// Reading a written string gives back the string, ending after its
/// closing quote.
proof fn lemma_strbody_ser(s: Seq<char>, i: int, t: Seq<char>)
    requires
        0 <= i,
        i + esc(t).len() + 1 <= s.len(),
        s.subrange(i, i + esc(t).len() + 1) == esc(t) + seq!['"'],
    ensures
        p_strbody(s, i) == Some((t, i + esc(t).len() + 1)),
    decreases t.len(),
{
    if t.len() == 0 {
        assert(s.subrange(i, i + 1) =~= seq!['"']);
        assert(s[i] == s.subrange(i, i + 1)[0]);
    } else {
        let c = t[0];
        let rest = t.skip(1);
        assert(esc(t) == esc_char(c) + esc(rest));
        if c == '"' || c == '\\' {
            assert(esc_char(c) == seq!['\\', c]);
            assert(s[i] == (esc(t) + seq!['"'])[0]);
            assert(s[i] == '\\');
            assert(s[i + 1] == (esc(t) + seq!['"'])[1]);
            assert(s[i + 1] == c);
            lemma_sub_inner(s, i, esc(t) + seq!['"'], 2, esc(t).len() as int + 1);
            assert((esc(t) + seq!['"']).subrange(2, esc(t).len() as int + 1) =~= esc(rest)
                + seq!['"']);
            lemma_strbody_ser(s, i + 2, rest);
            assert(seq![s[i + 1]] + rest =~= t);
        } else {
            assert(esc_char(c) == seq![c]);
            assert(s[i] == (esc(t) + seq!['"'])[0]);
            assert(s[i] == c);
            lemma_sub_inner(s, i, esc(t) + seq!['"'], 1, esc(t).len() as int + 1);
            assert((esc(t) + seq!['"']).subrange(1, esc(t).len() as int + 1) =~= esc(rest)
                + seq!['"']);
            lemma_strbody_ser(s, i + 1, rest);
            assert(seq![s[i]] + rest =~= t);
        }
    }
}

/// Reading a written quoted string gives back the string.
proof fn lemma_qstr_ser(s: Seq<char>, i: int, t: Seq<char>)
    requires
        0 <= i,
        i + qstr(t).len() <= s.len(),
        s.subrange(i, i + qstr(t).len()) == qstr(t),
    ensures
        p_str(s, i) == Some((t, i + qstr(t).len())),
{
    assert(s[i] == s.subrange(i, i + qstr(t).len() as int)[0]);
    assert(s[i] == '"');
    lemma_sub_inner(s, i, qstr(t), 1, qstr(t).len() as int);
    assert(qstr(t).subrange(1, qstr(t).len() as int) =~= esc(t) + seq!['"']);
    lemma_strbody_ser(s, i + 1, t);
}

/// Reading a written name list gives back the names, ending after the
/// closing bracket.
proof fn lemma_names_rest_ser(s: Seq<char>, i: int, names: Seq<Seq<char>>)
    requires
        names.len() > 0,
        0 <= i,
        i + ser_names_items(names).len() + 1 <= s.len(),
        s.subrange(i, i + ser_names_items(names).len() + 1) == ser_names_items(names) + seq![']'],
    ensures
        p_names_rest(s, i) == Some((names, i + ser_names_items(names).len() + 1)),
    decreases names.len(),
{
    let n0 = names[0];
    let q = qstr(n0);
    let w = ser_names_items(names) + seq![']'];
    let wl = w.len() as int;
    assert(s[i] == s.subrange(i, i + wl)[0]);
    assert(ser_names_items(names)[0] == '"');
    assert(s[i] == '"');
    assert(!is_ws('"'));
    assert(skip_ws(s, i) == i);
    if names.len() == 1 {
        assert(ser_names_items(names) == q);
        lemma_sub_inner(s, i, w, 0, q.len() as int);
        assert(w.subrange(0, q.len() as int) =~= q);
        lemma_qstr_ser(s, i, n0);
        let m = i + q.len();
        assert(s[m] == s.subrange(i, i + wl)[q.len() as int]);
        assert(s[m] == ']');
        assert(skip_ws(s, m) == m);
        assert(seq![n0] =~= names);
    } else {
        let rest = names.drop_first();
        assert(ser_names_items(names) == q + seq![','] + ser_names_items(rest));
        lemma_sub_inner(s, i, w, 0, q.len() as int);
        assert(w.subrange(0, q.len() as int) =~= q);
        lemma_qstr_ser(s, i, n0);
        let m = i + q.len();
        assert(s[m] == s.subrange(i, i + wl)[q.len() as int]);
        assert(s[m] == ',');
        assert(skip_ws(s, m) == m);
        lemma_sub_inner(s, i, w, q.len() as int + 1, wl);
        assert(w.subrange(q.len() as int + 1, wl) =~= ser_names_items(rest) + seq![']']);
        lemma_names_rest_ser(s, m + 1, rest);
        assert(seq![n0] + rest =~= names);
    }
}

/// Reading a written pair list gives back the pairs, ending after the
/// closing brace.
proof fn lemma_pairs_rest_ser(s: Seq<char>, i: int, ps: Seq<(Seq<char>, Seq<char>)>)
    requires
        ps.len() > 0,
        0 <= i,
        i + ser_pairs_items(ps).len() + 1 <= s.len(),
        s.subrange(i, i + ser_pairs_items(ps).len() + 1) == ser_pairs_items(ps) + seq!['}'],
    ensures
        p_pairs_rest(s, i) == Some((ps, i + ser_pairs_items(ps).len() + 1)),
    decreases ps.len(),
{
    let k0 = ps[0].0;
    let v0 = ps[0].1;
    let qk = qstr(k0);
    let qv = qstr(v0);
    let item = qk + seq![':'] + qv;
    let w = ser_pairs_items(ps) + seq!['}'];
    let wl = w.len() as int;
    assert(s[i] == s.subrange(i, i + wl)[0]);
    assert(ser_pairs_items(ps)[0] == '"');
    assert(s[i] == '"');
    assert(skip_ws(s, i) == i);
    lemma_sub_inner(s, i, w, 0, qk.len() as int);
    assert(w.subrange(0, qk.len() as int) =~= qk);
    lemma_qstr_ser(s, i, k0);
    let m = i + qk.len();
    assert(s[m] == s.subrange(i, i + wl)[qk.len() as int]);
    assert(s[m] == ':');
    assert(skip_ws(s, m) == m);
    assert(s[m + 1] == s.subrange(i, i + wl)[qk.len() as int + 1]);
    assert(s[m + 1] == '"');
    assert(skip_ws(s, m + 1) == m + 1);
    lemma_sub_inner(s, i, w, qk.len() as int + 1, qk.len() as int + 1 + qv.len() as int);
    assert(w.subrange(qk.len() as int + 1, qk.len() as int + 1 + qv.len() as int) =~= qv);
    lemma_qstr_ser(s, m + 1, v0);
    let m2 = m + 1 + qv.len();
    if ps.len() == 1 {
        assert(ser_pairs_items(ps) == item);
        assert(s[m2] == s.subrange(i, i + wl)[item.len() as int]);
        assert(s[m2] == '}');
        assert(skip_ws(s, m2) == m2);
        assert(seq![(k0, v0)] =~= ps);
    } else {
        let rest = ps.drop_first();
        assert(ser_pairs_items(ps) == item + seq![','] + ser_pairs_items(rest));
        assert(s[m2] == s.subrange(i, i + wl)[item.len() as int]);
        assert(s[m2] == ',');
        assert(skip_ws(s, m2) == m2);
        lemma_sub_inner(s, i, w, item.len() as int + 1, wl);
        assert(w.subrange(item.len() as int + 1, wl) =~= ser_pairs_items(rest) + seq!['}']);
        lemma_pairs_rest_ser(s, m2 + 1, rest);
        assert(seq![(k0, v0)] + rest =~= ps);
    }
}

/// The head of the written form: the object opens and its first member
/// is `inherit`.
#[verifier::rlimit(100)]
#[verifier::spinoff_prover]
proof fn lemma_rt_head(k: int, names: Seq<Seq<char>>, ps: Seq<(Seq<char>, Seq<char>)>)
    ensures
        ({
            let s = ser_env(k, names, ps);
            &&& s.len() == 11 + ser_inh(k, names).len() + 9 + ser_pairs_items(ps).len() + 2
            &&& skip_ws(s, 0) == 0
            &&& s[0] == '{'
            &&& skip_ws(s, 1) == 1
            &&& s[1] == '"'
            &&& p_str(s, 1) == Some(("inherit"@, 10int))
            &&& s[10] == ':'
            &&& skip_ws(s, 10) == 10
        }),
{
    reveal_strlit("{\"inherit\":");
    reveal_strlit(",\"vars\":{");
    reveal_strlit("}}");
    reveal_strlit("inherit");
    let s = ser_env(k, names, ps);
    let lit1 = "{\"inherit\":"@;
    assert(lit1.len() == 11);
    assert(s[0] == '{');
    assert(skip_ws(s, 0) == 0);
    assert(s[1] == '"');
    assert(skip_ws(s, 1) == 1);
    assert("inherit"@.len() == 7);
    assert(forall|j: int|
        0 <= j < 7 ==> "inherit"@[j] != '"' && #[trigger] "inherit"@[j] != '\\');
    lemma_esc_plain("inherit"@);
    assert(qstr("inherit"@).len() == 9);
    assert(s.subrange(1, 10) =~= qstr("inherit"@));
    lemma_qstr_ser(s, 1, "inherit"@);
    assert(s[10] == ':');
    assert(skip_ws(s, 10) == 10);
}

/// The middle of the written form: reading the inheritance value.
#[verifier::rlimit(100)]
#[verifier::spinoff_prover]
proof fn lemma_rt_inh(k: int, names: Seq<Seq<char>>, ps: Seq<(Seq<char>, Seq<char>)>)
    requires
        k == 0 || k == 1 || k == 2,
        k != 2 ==> names == Seq::<Seq<char>>::empty(),
    ensures
        p_inh_value(ser_env(k, names, ps), 11) == Some(
            ((k, names), 11 + ser_inh(k, names).len() as int),
        ),
{
    reveal_strlit("{\"inherit\":");
    reveal_strlit(",\"vars\":{");
    reveal_strlit("}}");
    reveal_strlit("true");
    reveal_strlit("false");
    let s = ser_env(k, names, ps);
    let mid = ser_inh(k, names);
    assert(s.len() == 11 + mid.len() + 9 + ser_pairs_items(ps).len() + 2);
    assert(s[11] == mid[0]);
    let e1 = 11 + mid.len() as int;
    if k == 0 {
        assert(mid == "false"@);
        assert(s[11] == 'f');
        assert(skip_ws(s, 11) == 11);
        assert(!lit_at(s, 11, "true"@)) by {
            if lit_at(s, 11, "true"@) {
                assert(s.subrange(11, 15)[0] == 't');
            }
        }
        assert(s.subrange(11, 16) =~= "false"@);
        assert(lit_at(s, 11, "false"@));
        assert(names =~= Seq::<Seq<char>>::empty());
    } else if k == 1 {
        assert(mid == "true"@);
        assert(s[11] == 't');
        assert(skip_ws(s, 11) == 11);
        assert(s.subrange(11, 15) =~= "true"@);
        assert(lit_at(s, 11, "true"@));
        assert(names =~= Seq::<Seq<char>>::empty());
    } else {
        assert(mid == seq!['['] + ser_names_items(names) + seq![']']);
        assert(s[11] == '[');
        assert(skip_ws(s, 11) == 11);
        assert(!lit_at(s, 11, "true"@)) by {
            if lit_at(s, 11, "true"@) {
                assert(s.subrange(11, 15)[0] == 't');
            }
        }
        assert(!lit_at(s, 11, "false"@)) by {
            if lit_at(s, 11, "false"@) {
                assert(s.subrange(11, 16)[0] == 'f');
            }
        }
        if names.len() == 0 {
            assert(ser_names_items(names).len() == 0);
            assert(s[12] == mid[1]);
            assert(s[12] == ']');
            assert(skip_ws(s, 12) == 12);
            assert(p_names_after(s, 12) == Some((Seq::<Seq<char>>::empty(), 13int)));
            assert(names =~= Seq::<Seq<char>>::empty());
        } else {
            assert(s[12] == mid[1]);
            assert(ser_names_items(names)[0] == '"');
            assert(s[12] == '"');
            assert(skip_ws(s, 12) == 12);
            assert(s.subrange(12, 12 + ser_names_items(names).len() as int + 1)
                =~= ser_names_items(names) + seq![']']);
            lemma_names_rest_ser(s, 12, names);
            assert(p_names_rest(s, 12) == Some((names, e1)));
            assert(p_names_after(s, 12) == Some((names, e1)));
        }
    }
}

/// The tail of the written form: after the inheritance member, a `vars`
/// member and the closing brace.
#[verifier::rlimit(100)]
#[verifier::spinoff_prover]
proof fn lemma_rt_tail(k: int, names: Seq<Seq<char>>, ps: Seq<(Seq<char>, Seq<char>)>)
    ensures
        p_env_after_inherit(
            ser_env(k, names, ps),
            11 + ser_inh(k, names).len() as int,
            k,
            names,
        ) == Some((k, names, ps)),
{
    reveal_strlit("{\"inherit\":");
    reveal_strlit(",\"vars\":{");
    reveal_strlit("}}");
    reveal_strlit("vars");
    reveal_strlit("inherit");
    let s = ser_env(k, names, ps);
    let mid = ser_inh(k, names);
    let lit3 = ",\"vars\":{"@;
    let pairs = ser_pairs_items(ps);
    let e1 = 11 + mid.len() as int;
    assert(lit3.len() == 9);
    assert(s.len() == e1 + 9 + pairs.len() + 2);
    assert(s[e1] == lit3[0]);
    assert(s[e1] == ',');
    assert(skip_ws(s, e1) == e1);
    assert(s[e1 + 1] == lit3[1]);
    assert(s[e1 + 1] == '"');
    assert(skip_ws(s, e1 + 1) == e1 + 1);
    assert("vars"@.len() == 4);
    assert(forall|j: int| 0 <= j < 4 ==> "vars"@[j] != '"' && #[trigger] "vars"@[j] != '\\');
    lemma_esc_plain("vars"@);
    assert(qstr("vars"@).len() == 6);
    assert(s.subrange(e1 + 1, e1 + 7) =~= qstr("vars"@));
    lemma_qstr_ser(s, e1 + 1, "vars"@);
    assert(p_str(s, e1 + 1) == Some(("vars"@, e1 + 7)));
    assert(s[e1 + 7] == lit3[7]);
    assert(s[e1 + 7] == ':');
    assert(skip_ws(s, e1 + 7) == e1 + 7);
    assert(s[e1 + 8] == lit3[8]);
    assert(s[e1 + 8] == '{');
    assert(skip_ws(s, e1 + 8) == e1 + 8);
    let e2: int = e1 + 9 + pairs.len() as int + 1;
    if ps.len() == 0 {
        assert(pairs.len() == 0);
        assert(s[e1 + 9] == '}');
        assert(skip_ws(s, e1 + 9) == e1 + 9);
        assert(p_pairs_after(s, e1 + 9) == Some((Seq::<(Seq<char>, Seq<char>)>::empty(), e2)));
        assert(ps =~= Seq::<(Seq<char>, Seq<char>)>::empty());
    } else {
        assert(pairs[0] == '"');
        assert(s[e1 + 9] == '"');
        assert(skip_ws(s, e1 + 9) == e1 + 9);
        assert(s.subrange(e1 + 9, e1 + 9 + pairs.len() as int + 1) =~= pairs + seq!['}']);
        lemma_pairs_rest_ser(s, e1 + 9, ps);
        assert(p_pairs_rest(s, e1 + 9) == Some((ps, e2)));
        assert(p_pairs_after(s, e1 + 9) == Some((ps, e2)));
    }
    assert(p_vars_value(s, e1 + 8) == Some((ps, e2)));
    assert(s[e2] == '}');
    assert(skip_ws(s, e2) == e2);
    assert(e2 + 1 == s.len());
    assert(skip_ws(s, e2 + 1) == s.len());
    assert("vars"@ != "inherit"@) by {
        assert("vars"@.len() == 4);
        assert("inherit"@.len() == 7);
    }
}

/// The round trip law: reading back the written form of any environment
/// specification gives exactly the specification — the same inheritance
/// kind, the same names in order, the same override pairs in order.
#[verifier::rlimit(100)]
#[verifier::spinoff_prover]
pub proof fn lemma_env_json_round_trip(
    k: int,
    names: Seq<Seq<char>>,
    ps: Seq<(Seq<char>, Seq<char>)>,
)
    requires
        k == 0 || k == 1 || k == 2,
        k != 2 ==> names == Seq::<Seq<char>>::empty(),
    ensures
        p_env(ser_env(k, names, ps)) == Some((k, names, ps)),
{
    lemma_rt_head(k, names, ps);
    lemma_rt_inh(k, names, ps);
    lemma_rt_tail(k, names, ps);
    let s = ser_env(k, names, ps);
    assert(s[1] != '}');
    assert(p_env(s) == Some((k, names, ps)));
}

} // verus!
