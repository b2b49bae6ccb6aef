//! What holds of every chain the parser gives.
use crate::parsing::{
    cmd_rest, control_element, is_control, is_redirect, lemma_cmd_rest_bound,
    lemma_parse_elements_empty, parse_chains, parse_elements, parse_line, parse_multiple_spec,
    starts_with_target, CmdModel, ElementModel,
};
use crate::text::{
    all_space, blank_or_sep, is_word, lemma_pieces_blank, lemma_pieces_nonempty,
    lemma_words_are_words, lemma_words_empty, pieces, words,
};
use vstd::prelude::*;

verus! {

/// A word that can be a command's name or argument: not a control word.
pub open spec fn cmd_word(w: Seq<char>) -> bool {
    is_word(w) && !is_control(w)
}

/// A word that can name an output file: neither a control word nor `>`.
pub open spec fn plain_word(w: Seq<char>) -> bool {
    cmd_word(w) && !is_redirect(w)
}

/// An element as the parser makes it: an operator, or a command whose name and
/// arguments are words other than control words, and whose output file is a word
/// that is neither a control word nor `>`.
pub open spec fn from_parser(e: ElementModel) -> bool {
    match e {
        ElementModel::Pipe => true,
        ElementModel::And => true,
        ElementModel::Or => true,
        ElementModel::Cmd(c) => {
            &&& cmd_word(c.binary)
            &&& forall|k: int| 0 <= k < c.args.len() ==> cmd_word(#[trigger] c.args[k])
            &&& c.redirect_target matches Some(t) ==> plain_word(t)
        },
        _ => false,
    }
}

/// Every element is one the parser makes, and no command directly follows
/// another: a command runs up to the next operator.
pub open spec fn well_shaped(es: Seq<ElementModel>) -> bool {
    &&& forall|i: int| 0 <= i < es.len() ==> from_parser(#[trigger] es[i])
    &&& forall|i: int, j: int|
        #![trigger es[i], es[j]]
        0 <= i && j == i + 1 && j < es.len() && es[i] is Cmd ==> !(es[j] is Cmd)
}

proof fn lemma_cmd_rest_shape(ts: Seq<Seq<char>>)
    requires
        forall|i: int| 0 <= i < ts.len() ==> is_word(#[trigger] ts[i]),
    ensures
        ({
            let (a, t, n) = cmd_rest(ts);
            &&& n <= ts.len()
            &&& n < ts.len() ==> is_control(ts[n as int])
            &&& forall|k: int| 0 <= k < a.len() ==> cmd_word(#[trigger] a[k])
            &&& t matches Some(f) ==> plain_word(f)
        }),
    decreases ts.len(),
{
    lemma_cmd_rest_bound(ts);
    if ts.len() == 0 || is_control(ts[0]) {
    } else if starts_with_target(ts) {
        let rest = ts.skip(2);
        assert forall|i: int| 0 <= i < rest.len() implies is_word(#[trigger] rest[i]) by {
            assert(rest[i] == ts[i + 2]);
        }
        lemma_cmd_rest_shape(rest);
        let n = cmd_rest(rest).2;
        if n < rest.len() {
            assert(rest[n as int] == ts[n + 2 as int]);
        }
    } else {
        let rest = ts.drop_first();
        assert forall|i: int| 0 <= i < rest.len() implies is_word(#[trigger] rest[i]) by {
            assert(rest[i] == ts[i + 1]);
        }
        lemma_cmd_rest_shape(rest);
        let (a, t, n) = cmd_rest(rest);
        if n < rest.len() {
            assert(rest[n as int] == ts[n + 1 as int]);
        }
        let a2 = seq![ts[0]] + a;
        assert forall|k: int| 0 <= k < a2.len() implies cmd_word(#[trigger] a2[k]) by {
            if k > 0 {
                assert(a2[k] == a[k - 1]);
            }
        }
    }
}

proof fn lemma_well_shaped_cons(x: ElementModel, rest: Seq<ElementModel>)
    requires
        from_parser(x),
        well_shaped(rest),
        x is Cmd && rest.len() > 0 ==> !(rest[0] is Cmd),
    ensures
        well_shaped(seq![x] + rest),
{
    let es = seq![x] + rest;
    assert forall|i: int| 0 <= i < es.len() implies from_parser(#[trigger] es[i]) by {
        if i > 0 {
            assert(es[i] == rest[i - 1]);
        }
    }
    assert forall|i: int, j: int|
        #![trigger es[i], es[j]]
        0 <= i && j == i + 1 && j < es.len() && es[i] is Cmd implies !(es[j] is Cmd) by {
        if i > 0 {
            assert(es[i] == rest[i - 1]);
            assert(es[j] == rest[j - 1]);
        }
    }
}

/// The elements of a sequence of words are well shaped.
pub proof fn lemma_parse_elements_well_shaped(ts: Seq<Seq<char>>)
    requires
        forall|i: int| 0 <= i < ts.len() ==> is_word(#[trigger] ts[i]),
    ensures
        well_shaped(parse_elements(ts)),
    decreases ts.len(),
{
    if ts.len() == 0 {
        assert(well_shaped(Seq::<ElementModel>::empty()));
    } else {
        let rest = ts.drop_first();
        assert forall|i: int| 0 <= i < rest.len() implies is_word(#[trigger] rest[i]) by {
            assert(rest[i] == ts[i + 1]);
        }
        if is_control(ts[0]) {
            lemma_parse_elements_well_shaped(rest);
            lemma_well_shaped_cons(control_element(ts[0]), parse_elements(rest));
        } else {
            lemma_cmd_rest_shape(rest);
            lemma_cmd_rest_bound(rest);
            {
                let (a, t, n) = cmd_rest(rest);
                {
                    let after = ts.skip(n + 1 as int);
                    assert forall|i: int| 0 <= i < after.len() implies is_word(#[trigger] after[i]) by {
                        assert(after[i] == ts[i + n + 1]);
                    }
                    lemma_parse_elements_well_shaped(after);
                    if after.len() > 0 {
                        assert(after[0] == rest[n as int]);
                        assert(parse_elements(after)[0] == control_element(after[0]));
                    }
                    let c = CmdModel { binary: ts[0], args: a, redirect_target: t };
                    lemma_well_shaped_cons(ElementModel::Cmd(c), parse_elements(after));
                }
            }
        }
    }
}

/// Every chain the parser gives from a line is well shaped: it holds only
/// operators and commands, and no command directly follows another.
pub proof fn lemma_parse_line_well_shaped(s: Seq<char>)
    ensures
        parse_line(s) matches Some(es) ==> es.len() > 0 && well_shaped(es),
{
    lemma_words_are_words(s);
    lemma_parse_elements_well_shaped(words(s));
}

} // verus!

verus! {

/// The chains of a sequence of pieces: each is non-empty and well shaped, and
/// there are no more chains than pieces.
pub proof fn lemma_parse_chains_shape(ps: Seq<Seq<char>>)
    ensures
        parse_chains(ps).len() <= ps.len(),
        forall|i: int|
            0 <= i < parse_chains(ps).len() ==> #[trigger] parse_chains(ps)[i].len() > 0
                && well_shaped(parse_chains(ps)[i]),
    decreases ps.len(),
{
    if ps.len() > 0 {
        let rest = ps.drop_first();
        lemma_parse_chains_shape(rest);
        lemma_parse_line_well_shaped(ps[0]);
        match parse_line(ps[0]) {
            Some(e) => {
                let cs = parse_chains(ps);
                assert forall|i: int| 0 <= i < cs.len() implies #[trigger] cs[i].len() > 0
                    && well_shaped(cs[i]) by {
                    if i > 0 {
                        assert(cs[i] == parse_chains(rest)[i - 1]);
                    }
                }
            },
            None => {},
        }
    }
}

/// How many times `c` occurs in `s`.
pub open spec fn occurrences(s: Seq<char>, c: char) -> nat
    decreases s.len(),
{
    if s.len() == 0 {
        0
    } else {
        (if s[0] == c { 1nat } else { 0nat }) + occurrences(s.drop_first(), c)
    }
}

/// A line split at `sep` has one piece more than it has separators.
pub proof fn lemma_pieces_len(s: Seq<char>, sep: char)
    ensures
        pieces(s, sep).len() == occurrences(s, sep) + 1,
    decreases s.len(),
{
    if s.len() > 0 {
        lemma_pieces_len(s.drop_first(), sep);
    }
}

/// Every chain of a line is non-empty and well shaped, and a line with `k`
/// semicolons gives at most `k + 1` chains.
pub proof fn lemma_parse_multiple_shape(line: Seq<char>)
    ensures
        parse_multiple_spec(line).len() <= occurrences(line, ';') + 1,
        forall|i: int|
            0 <= i < parse_multiple_spec(line).len() ==> #[trigger] parse_multiple_spec(line)[i].len()
                > 0 && well_shaped(parse_multiple_spec(line)[i]),
{
    lemma_pieces_len(line, ';');
    lemma_parse_chains_shape(pieces(line, ';'));
}

proof fn lemma_pieces_concat(a: Seq<char>, sep: char, b: Seq<char>)
    ensures
        pieces(a + seq![sep] + b, sep) == pieces(a, sep) + pieces(b, sep),
    decreases a.len(),
{
    let s = a + seq![sep] + b;
    if a.len() == 0 {
        assert(s.drop_first() =~= b);
        assert(seq![Seq::<char>::empty()] + pieces(b, sep) =~= pieces(a, sep) + pieces(b, sep));
    } else {
        let a1 = a.drop_first();
        assert(s.drop_first() =~= a1 + seq![sep] + b);
        lemma_pieces_concat(a1, sep, b);
        lemma_pieces_nonempty(a1, sep);
        lemma_pieces_nonempty(b, sep);
        if a[0] == sep {
            assert(seq![Seq::<char>::empty()] + (pieces(a1, sep) + pieces(b, sep)) =~= (seq![
                Seq::<char>::empty(),
            ] + pieces(a1, sep)) + pieces(b, sep));
        } else {
            let p = pieces(a1, sep);
            let q = pieces(b, sep);
            assert(crate::text::prepend(seq![a[0]], p + q) =~= crate::text::prepend(seq![a[0]], p)
                + q);
        }
    }
}

proof fn lemma_parse_chains_concat(p: Seq<Seq<char>>, q: Seq<Seq<char>>)
    ensures
        parse_chains(p + q) == parse_chains(p) + parse_chains(q),
    decreases p.len(),
{
    if p.len() == 0 {
        assert(p + q =~= q);
        assert(parse_chains(p) + parse_chains(q) =~= parse_chains(q));
    } else {
        assert((p + q).drop_first() =~= p.drop_first() + q);
        assert((p + q)[0] == p[0]);
        lemma_parse_chains_concat(p.drop_first(), q);
        match parse_line(p[0]) {
            Some(e) => {
                assert(seq![e] + (parse_chains(p.drop_first()) + parse_chains(q)) =~= (seq![e]
                    + parse_chains(p.drop_first())) + parse_chains(q));
            },
            None => {},
        }
    }
}

/// A `;` separates chains: the chains of `a;b` are those of `a` followed by
/// those of `b`.
pub proof fn lemma_parse_multiple_concat(a: Seq<char>, b: Seq<char>)
    ensures
        parse_multiple_spec(a + seq![';'] + b) == parse_multiple_spec(a) + parse_multiple_spec(b),
{
    lemma_pieces_concat(a, ';', b);
    lemma_parse_chains_concat(pieces(a, ';'), pieces(b, ';'));
}

} // verus!

verus! {

/// A line gives no chain exactly when it is blank: every non-blank line gives one.
pub proof fn lemma_parse_line_none(s: Seq<char>)
    ensures
        parse_line(s) is None <==> all_space(s),
{
    lemma_words_empty(s);
    lemma_parse_elements_empty(words(s));
}

proof fn lemma_parse_chains_empty(ps: Seq<Seq<char>>)
    ensures
        parse_chains(ps).len() == 0 <==> forall|i: int|
            0 <= i < ps.len() ==> all_space(#[trigger] ps[i]),
    decreases ps.len(),
{
    if ps.len() > 0 {
        let qs = ps.drop_first();
        lemma_parse_chains_empty(qs);
        lemma_parse_line_none(ps[0]);
        if (forall|i: int| 0 <= i < qs.len() ==> all_space(#[trigger] qs[i])) && all_space(ps[0]) {
            assert forall|i: int| 0 <= i < ps.len() implies all_space(#[trigger] ps[i]) by {
                if i > 0 {
                    assert(ps[i] == qs[i - 1]);
                }
            }
        }
        if forall|i: int| 0 <= i < ps.len() ==> all_space(#[trigger] ps[i]) {
            assert(all_space(ps[0]));
            assert forall|i: int| 0 <= i < qs.len() implies all_space(#[trigger] qs[i]) by {
                assert(qs[i] == ps[i + 1]);
            }
        }
    }
}

/// Only blank pieces are dropped: a line gives no chain at all exactly when it holds
/// nothing but `;` and whitespace.
pub proof fn lemma_parse_multiple_empty(line: Seq<char>)
    ensures
        parse_multiple_spec(line).len() == 0 <==> blank_or_sep(line, ';'),
{
    lemma_parse_chains_empty(pieces(line, ';'));
    lemma_pieces_blank(line, ';');
}

/// The chains of a line are, in order, the chains of its non-blank pieces.
pub proof fn lemma_parse_chains_keep_non_blank(ps: Seq<Seq<char>>)
    ensures
        parse_chains(ps) == ps.filter(|p: Seq<char>| !all_space(p)).map_values(
            |p: Seq<char>| parse_elements(words(p)),
        ),
    decreases ps.len(),
{
    let f = |p: Seq<char>| !all_space(p);
    let g = |p: Seq<char>| parse_elements(words(p));
    if ps.len() > 0 {
        let qs = ps.drop_first();
        lemma_parse_chains_keep_non_blank(qs);
        lemma_parse_line_none(ps[0]);
        ps.lemma_filter_eq_filter_alt(f);
        if !all_space(ps[0]) {
            assert((seq![ps[0]] + qs.filter(f)).map_values(g) =~= seq![g(ps[0])] + qs.filter(
                f,
            ).map_values(g));
        }
    } else {
        assert(ps.filter(f) =~= Seq::<Seq<char>>::empty());
    }
}

} // verus!

verus! {

proof fn lemma_cmd_rest_args(args: Seq<Seq<char>>, tail: Seq<Seq<char>>)
    requires
        forall|k: int|
            0 <= k < args.len() ==> !is_control(#[trigger] args[k]) && !is_redirect(args[k]),
    ensures
        cmd_rest(args + tail) == (
            args + cmd_rest(tail).0,
            cmd_rest(tail).1,
            args.len() + cmd_rest(tail).2,
        ),
    decreases args.len(),
{
    if args.len() > 0 {
        let s = args + tail;
        let rest = args.drop_first();
        assert(s[0] == args[0]);
        assert(s.drop_first() =~= rest + tail);
        assert forall|k: int|
            0 <= k < rest.len() implies !is_control(#[trigger] rest[k]) && !is_redirect(
            rest[k],
        ) by {
            assert(rest[k] == args[k + 1]);
        }
        lemma_cmd_rest_args(rest, tail);
        assert(seq![args[0]] + (rest + cmd_rest(tail).0) =~= args + cmd_rest(tail).0);
    } else {
        assert(args + tail =~= tail);
        assert(args + cmd_rest(tail).0 =~= cmd_rest(tail).0);
    }
}

/// The word after `>` names the command's output file, whatever characters it
/// holds: a command name `c`, arguments `args` (no control word and no `>` among
/// them), then `>` and a word `f` that is neither a control word nor `>`, give one
/// command `c` with arguments `args` and output file `f`.
pub proof fn lemma_redirect_names_file(
    c: Seq<char>,
    args: Seq<Seq<char>>,
    f: Seq<char>,
)
    requires
        !is_control(c),
        forall|k: int|
            0 <= k < args.len() ==> !is_control(#[trigger] args[k]) && !is_redirect(args[k]),
        !is_control(f),
        !is_redirect(f),
    ensures
        parse_elements(seq![c] + args + seq![seq!['>'], f]) == seq![
            ElementModel::Cmd(CmdModel { binary: c, args: args, redirect_target: Some(f) }),
        ],
{
    let ts = seq![c] + args + seq![seq!['>'], f];
    let tail = seq![seq!['>'], f];
    assert(ts[0] == c);
    assert(ts.drop_first() =~= args + tail);
    lemma_cmd_rest_args(args, tail);
    assert(tail.skip(2) =~= Seq::<Seq<char>>::empty());
    assert(starts_with_target(tail));
    crate::parsing::lemma_redirect_not_control(tail[0]);
    assert(cmd_rest(Seq::<Seq<char>>::empty()) == (Seq::<Seq<char>>::empty(), None::<Seq<char>>, 0nat));
    assert(cmd_rest(tail) == (Seq::<Seq<char>>::empty(), Some(f), 2nat));
    assert(args + Seq::<Seq<char>>::empty() =~= args);
    lemma_cmd_rest_bound(ts.drop_first());
    assert(ts.skip(args.len() + 3 as int) =~= Seq::<Seq<char>>::empty());
    assert(parse_elements(Seq::<Seq<char>>::empty()) == Seq::<ElementModel>::empty());
}

} // verus!
