//! Splitting an input line into chains of commands and operators.
pub mod properties;
use crate::text::{pieces, split_pieces, split_words, views, words};
use vstd::prelude::*;

verus! {

/// A command: the program to run, its arguments, and the file its output goes to.
#[derive(PartialEq, Debug, Clone)]
pub struct Cmd<'a> {
    pub binary: &'a str,
    pub args: Vec<&'a str>,
    pub redirect_target: Option<&'a str>,
}

/// One element of a chain.
#[derive(PartialEq, Debug, Clone)]
pub enum Element<'a> {
    /// `|`
    Pipe,
    /// `&&`
    And,
    /// `||`
    Or,
    /// Command.
    ElementCmd(Cmd<'a>),
    /// `< file`: the next command reads the file.
    RedirectIn(&'a str),
    /// `> file`: the previous command writes the file, truncating it.
    RedirectOut(&'a str),
    /// `>> file`: the previous command appends to the file.
    RedirectAppend(&'a str),
    /// `<< delimiter`, with the text read up to the delimiter.
    Heredoc(&'a str, String),
}

/// A command as a mathematical value.
pub struct CmdModel {
    pub binary: Seq<char>,
    pub args: Seq<Seq<char>>,
    pub redirect_target: Option<Seq<char>>,
}

/// An element of a chain as a mathematical value.
pub enum ElementModel {
    Pipe,
    And,
    Or,
    Cmd(CmdModel),
    RedirectIn(Seq<char>),
    RedirectOut(Seq<char>),
    RedirectAppend(Seq<char>),
    Heredoc(Seq<char>, Seq<char>),
}

/// The view of an optional string.
pub open spec fn opt_view(o: Option<&str>) -> Option<Seq<char>> {
    match o {
        Some(s) => Some(s@),
        None => None,
    }
}

impl<'a> View for Cmd<'a> {
    type V = CmdModel;

    open spec fn view(&self) -> CmdModel {
        CmdModel {
            binary: self.binary@,
            args: views(self.args@),
            redirect_target: opt_view(self.redirect_target),
        }
    }
}

impl<'a> View for Element<'a> {
    type V = ElementModel;

    open spec fn view(&self) -> ElementModel {
        match self {
            Element::Pipe => ElementModel::Pipe,
            Element::And => ElementModel::And,
            Element::Or => ElementModel::Or,
            Element::ElementCmd(c) => ElementModel::Cmd(c@),
            Element::RedirectIn(f) => ElementModel::RedirectIn(f@),
            Element::RedirectOut(f) => ElementModel::RedirectOut(f@),
            Element::RedirectAppend(f) => ElementModel::RedirectAppend(f@),
            Element::Heredoc(d, c) => ElementModel::Heredoc(d@, c@),
        }
    }
}

/// The view of each element of a chain.
pub open spec fn chain_view(v: Seq<Element>) -> Seq<ElementModel> {
    v.map_values(|e: Element| e@)
}

/// The view of each chain.
pub open spec fn chains_view(v: Seq<Vec<Element>>) -> Seq<Seq<ElementModel>> {
    v.map_values(|c: Vec<Element>| chain_view(c@))
}

/// `|`, `&&` and `||` end a command.
pub open spec fn is_control(t: Seq<char>) -> bool {
    ||| t == seq!['|']
    ||| t == seq!['&', '&']
    ||| t == seq!['|', '|']
}

/// `>` sends a command's output to the word after it.
pub open spec fn is_redirect(t: Seq<char>) -> bool {
    t == seq!['>']
}

/// The element that a control word stands for.
pub open spec fn control_element(t: Seq<char>) -> ElementModel {
    if t == seq!['|'] {
        ElementModel::Pipe
    } else if t == seq!['&', '&'] {
        ElementModel::And
    } else {
        ElementModel::Or
    }
}

/// Whether `ts` starts with `>` and a file name: a word that is neither a control
/// word nor `>`.
pub open spec fn starts_with_target(ts: Seq<Seq<char>>) -> bool {
    ts.len() >= 2 && is_redirect(ts[0]) && !is_control(ts[1]) && !is_redirect(ts[1])
}

/// What follows a command's name in `ts`, up to the next control word or the end:
/// its arguments, its output file (the last `> file` wins), and how many words it
/// takes. A `>` with no file name after it is an argument like any other word.
pub open spec fn cmd_rest(ts: Seq<Seq<char>>) -> (Seq<Seq<char>>, Option<Seq<char>>, nat)
    decreases ts.len(),
{
    if ts.len() == 0 || is_control(ts[0]) {
        (seq![], None, 0)
    } else if starts_with_target(ts) {
        let (a, t, n) = cmd_rest(ts.skip(2));
        (a, if t is Some { t } else { Some(ts[1]) }, n + 2)
    } else {
        let (a, t, n) = cmd_rest(ts.drop_first());
        (seq![ts[0]] + a, t, n + 1)
    }
}

/// A command takes no more words than there are.
pub proof fn lemma_cmd_rest_bound(ts: Seq<Seq<char>>)
    ensures
        cmd_rest(ts).2 <= ts.len(),
    decreases ts.len(),
{
    if ts.len() == 0 || is_control(ts[0]) {
    } else if starts_with_target(ts) {
        lemma_cmd_rest_bound(ts.skip(2));
    } else {
        lemma_cmd_rest_bound(ts.drop_first());
    }
}

/// The elements of a chain of words: control words stand for themselves, any other
/// word starts a command that runs up to the next control word.
pub open spec fn parse_elements(ts: Seq<Seq<char>>) -> Seq<ElementModel>
    decreases ts.len(),
{
    if ts.len() == 0 {
        seq![]
    } else if is_control(ts[0]) {
        seq![control_element(ts[0])] + parse_elements(ts.drop_first())
    } else {
        proof {
            lemma_cmd_rest_bound(ts.drop_first());
        }
        let (a, t, n) = cmd_rest(ts.drop_first());
        seq![ElementModel::Cmd(CmdModel { binary: ts[0], args: a, redirect_target: t })]
            + parse_elements(ts.skip(n + 1 as int))
    }
}

/// Words give elements exactly when there are any.
pub proof fn lemma_parse_elements_empty(ts: Seq<Seq<char>>)
    ensures
        parse_elements(ts).len() == 0 <==> ts.len() == 0,
{
    if ts.len() > 0 && !is_control(ts[0]) {
        lemma_cmd_rest_bound(ts.drop_first());
    }
}

/// The chain that a line gives, `None` where it gives no element (where it has
/// no word).
pub open spec fn parse_line(s: Seq<char>) -> Option<Seq<ElementModel>> {
    let e = parse_elements(words(s));
    if e.len() == 0 {
        None
    } else {
        Some(e)
    }
}

/// The chains of the pieces that give one, in order.
pub open spec fn parse_chains(ps: Seq<Seq<char>>) -> Seq<Seq<ElementModel>>
    decreases ps.len(),
{
    if ps.len() == 0 {
        seq![]
    } else {
        match parse_line(ps[0]) {
            Some(e) => seq![e] + parse_chains(ps.drop_first()),
            None => parse_chains(ps.drop_first()),
        }
    }
}

/// The chains of a line whose commands are separated by `;`.
pub open spec fn parse_multiple_spec(line: Seq<char>) -> Seq<Seq<ElementModel>> {
    parse_chains(pieces(line, ';'))
}

} // verus!

verus! {

/// Whether `t` is `|`, `&&` or `||`.
fn is_control_word(t: &str) -> (b: bool)
    ensures
        b == is_control(t@),
{
    let n = t.unicode_len();
    if n == 1 {
        let b = t.get_char(0) == '|';
        proof {
            if b {
                assert(t@ =~= seq!['|']);
            }
        }
        b
    } else if n == 2 {
        let x = t.get_char(0);
        let y = t.get_char(1);
        let b = (x == '&' && y == '&') || (x == '|' && y == '|');
        proof {
            if x == '&' && y == '&' {
                assert(t@ =~= seq!['&', '&']);
            }
            if x == '|' && y == '|' {
                assert(t@ =~= seq!['|', '|']);
            }
        }
        b
    } else {
        false
    }
}

/// Whether `t` is `>`.
fn is_redirect_word(t: &str) -> (b: bool)
    ensures
        b == is_redirect(t@),
{
    if t.unicode_len() == 1 {
        let b = t.get_char(0) == '>';
        proof {
            if b {
                assert(t@ =~= seq!['>']);
            }
        }
        b
    } else {
        false
    }
}

/// The element that the control word `t` stands for.
fn control_of<'a>(t: &str) -> (e: Element<'a>)
    requires
        is_control(t@),
    ensures
        e@ == control_element(t@),
{
    let x = t.get_char(0);
    let n = t.unicode_len();
    if n == 1 {
        Element::Pipe
    } else if x == '&' {
        Element::And
    } else {
        Element::Or
    }
}

} // verus!

verus! {

/// Processes one chain of a line (a piece between `;`): the line is split into
/// words, which `parse` turns into `Element`s.
#[derive(Debug)]
pub struct Parser<'a> {
    current: usize,
    tokens: Vec<&'a str>,
}

/// What `cmd_rest` gives for the words after a command's first `k` words, which
/// gave the arguments `args` and the output file `target`.
pub open spec fn resume(
    args: Seq<Seq<char>>,
    target: Option<Seq<char>>,
    k: nat,
    r: (Seq<Seq<char>>, Option<Seq<char>>, nat),
) -> (Seq<Seq<char>>, Option<Seq<char>>, nat) {
    (args + r.0, if r.1 is Some { r.1 } else { target }, k + r.2)
}

proof fn lemma_resume_arg(args: Seq<Seq<char>>, target: Option<Seq<char>>, k: nat, ts: Seq<Seq<char>>)
    requires
        ts.len() > 0,
        !is_control(ts[0]),
        !starts_with_target(ts),
    ensures
        resume(args, target, k, cmd_rest(ts)) == resume(
            args.push(ts[0]),
            target,
            k + 1,
            cmd_rest(ts.drop_first()),
        ),
{
    let a = cmd_rest(ts.drop_first()).0;
    assert(args + (seq![ts[0]] + a) =~= args.push(ts[0]) + a);
}

proof fn lemma_resume_target(args: Seq<Seq<char>>, target: Option<Seq<char>>, k: nat, ts: Seq<Seq<char>>)
    requires
        starts_with_target(ts),
    ensures
        resume(args, target, k, cmd_rest(ts)) == resume(
            args,
            Some(ts[1]),
            k + 2,
            cmd_rest(ts.skip(2)),
        ),
{
    lemma_redirect_not_control(ts[0]);
}

/// `>` is not a control word.
pub proof fn lemma_redirect_not_control(t: Seq<char>)
    requires
        is_redirect(t),
    ensures
        !is_control(t),
{
    assert(t[0] == '>');
    assert(seq!['|'][0] == '|');
    assert(seq!['&', '&'][0] == '&');
    assert(seq!['|', '|'][0] == '|');
}

impl<'a> Parser<'a> {
    /// The position never passes the last word.
    #[verifier::type_invariant]
    spec fn well_formed(&self) -> bool {
        self.current <= self.tokens.len()
    }

    /// The words still to be parsed come from here on.
    pub closed spec fn position(&self) -> nat {
        self.current as nat
    }

    /// The words of the chain.
    pub closed spec fn words_of(&self) -> Seq<Seq<char>> {
        views(self.tokens@)
    }

    /// The words not yet parsed.
    pub open spec fn rest(&self) -> Seq<Seq<char>> {
        self.words_of().skip(self.position() as int)
    }

    /// `chain_in_line`: a single chain, split into words at whitespace.
    pub fn new(chain_in_line: &'a str) -> (p: Self)
        ensures
            p.words_of() == words(chain_in_line@),
            p.position() == 0,
    {
        Self { tokens: split_words(chain_in_line), current: 0 }
    }

    /// Parses the arguments and the output file of the command named `binary`,
    /// from the current word up to the next control word.
    fn parse_cmd(&mut self, binary: &'a str) -> (r: Option<Cmd<'a>>)
        ensures
            final(self).words_of() == old(self).words_of(),
            final(self).position() <= final(self).words_of().len(),
            ({
                let (a, t, n) = cmd_rest(old(self).rest());
                &&& r matches Some(c)
                &&& c@ == (CmdModel { binary: binary@, args: a, redirect_target: t })
                &&& final(self).position() == old(self).position() + n
            }),
    {
        proof {
            use_type_invariant(&*self);
        }
        let ghost ts = self.words_of();
        let ghost p0 = self.current as int;
        let mut args: Vec<&'a str> = Vec::new();
        let mut target: Option<&'a str> = None;
        let n = self.tokens.len();
        loop
            invariant
                ts == views(self.tokens@),
                self.tokens@ == old(self).tokens@,
                p0 == old(self).current,
                n == self.tokens@.len(),
                p0 <= self.current <= n,
                resume(views(args@), opt_view(target), (self.current - p0) as nat,
                    cmd_rest(ts.skip(self.current as int))) == cmd_rest(ts.skip(p0)),
            ensures
                ts == views(self.tokens@),
                p0 <= self.current <= n,
                cmd_rest(ts.skip(p0)) == (
                    views(args@),
                    opt_view(target),
                    (self.current - p0) as nat,
                ),
            decreases n - self.current,
        {
            let ghost p = self.current as int;
            let ghost here = ts.skip(p);
            if self.current >= n {
                proof {
                    assert(here.len() == 0);
                    assert(views(args@) + seq![] =~= views(args@));
                }
                break;
            }
            let token = self.tokens[self.current];
            assert(here[0] == token@);
            if is_control_word(token) {
                proof {
                    assert(views(args@) + seq![] =~= views(args@));
                }
                break;
            }
            let mut file_follows = false;
            if is_redirect_word(token) && self.current + 1 < n {
                let file = self.tokens[self.current + 1];
                assert(here[1] == file@);
                file_follows = !is_control_word(file) && !is_redirect_word(file);
            }
            if file_follows {
                let file = self.tokens[self.current + 1];
                proof {
                    lemma_resume_target(views(args@), opt_view(target), (p - p0) as nat, here);
                    assert(here.skip(2) =~= ts.skip(p + 2));
                }
                target = Some(file);
                self.current = self.current + 2;
            } else {
                proof {
                    lemma_resume_arg(views(args@), opt_view(target), (p - p0) as nat, here);
                    assert(here.drop_first() =~= ts.skip(p + 1));
                    assert(views(args@.push(token)) =~= views(args@).push(token@));
                }
                args.push(token);
                self.current = self.current + 1;
            }
        }
        Some(Cmd { binary, args, redirect_target: target })
    }
}

} // verus!

verus! {

proof fn lemma_parse_control_step(ts: Seq<Seq<char>>, p: int)
    requires
        0 <= p < ts.len(),
        is_control(ts[p]),
    ensures
        parse_elements(ts.skip(p)) == seq![control_element(ts[p])] + parse_elements(ts.skip(p + 1)),
{
    assert(ts.skip(p).drop_first() =~= ts.skip(p + 1));
}

proof fn lemma_parse_cmd_step(ts: Seq<Seq<char>>, p: int)
    requires
        0 <= p < ts.len(),
        !is_control(ts[p]),
    ensures
        ({
            let (a, t, n) = cmd_rest(ts.skip(p + 1));
            parse_elements(ts.skip(p)) == seq![
                ElementModel::Cmd(CmdModel { binary: ts[p], args: a, redirect_target: t }),
            ] + parse_elements(ts.skip(p + 1 + n))
        }),
{
    assert(ts.skip(p).drop_first() =~= ts.skip(p + 1));
    lemma_cmd_rest_bound(ts.skip(p + 1));
    let n = cmd_rest(ts.skip(p + 1)).2;
    assert(ts.skip(p).skip(n + 1 as int) =~= ts.skip(p + 1 + n));
}

impl<'a> Parser<'a> {
    /// Parses the words not yet parsed into elements; `None` exactly where no word
    /// is left.
    pub fn parse(self) -> (r: Option<Vec<Element<'a>>>)
        ensures
            match r {
                Some(v) => v@.len() > 0 && chain_view(v@) == parse_elements(self.rest()),
                None => parse_elements(self.rest()).len() == 0,
            },
            r is None <==> self.rest().len() == 0,
    {
        let mut this = self;
        proof {
            use_type_invariant(&this);
            lemma_parse_elements_empty(this.rest());
        }
        let ghost ts = this.words_of();
        let ghost p0 = this.current as int;
        let mut elements: Vec<Element<'a>> = Vec::new();
        loop
            invariant_except_break
                ts == this.words_of(),
                p0 <= this.current <= ts.len(),
                parse_elements(ts.skip(p0)) == chain_view(elements@) + parse_elements(
                    ts.skip(this.current as int),
                ),
            ensures
                parse_elements(ts.skip(p0)) == chain_view(elements@),
            decreases ts.len() - this.current,
        {
            proof {
                use_type_invariant(&this);
            }
            let ghost p = this.current as int;
            if this.current >= this.tokens.len() {
                proof {
                    assert(ts.skip(p).len() == 0);
                    assert(chain_view(elements@) + seq![] =~= chain_view(elements@));
                }
                break;
            }
            let token = this.tokens[this.current];
            assert(ts[p] == token@);
            this.current = this.current + 1;
            if is_control_word(token) {
                let e = control_of(token);
                proof {
                    lemma_parse_control_step(ts, p);
                    assert(chain_view(elements@.push(e)) =~= chain_view(elements@).push(e@));
                }
                elements.push(e);
            } else {
                proof {
                    lemma_parse_cmd_step(ts, p);
                }
                match this.parse_cmd(token) {
                    Some(cmd) => {
                        let e = Element::ElementCmd(cmd);
                        proof {
                            assert(chain_view(elements@.push(e)) =~= chain_view(elements@).push(
                                e@,
                            ));
                        }
                        elements.push(e);
                    },
                    None => {
                        proof {
                            assert(chain_view(elements@) + seq![] =~= chain_view(elements@));
                        }
                        break;
                    },
                }
            }
        }
        if elements.len() == 0 {
            None
        } else {
            Some(elements)
        }
    }
}

/// Parses a line into its chains: one for each piece between `;` that gives at
/// least one element.
pub fn parse_multiple<'a>(line: &'a str) -> (r: Vec<Vec<Element<'a>>>)
    ensures
        chains_view(r@) == parse_multiple_spec(line@),
{
    let ps = split_pieces(line, ';');
    let ghost segs = views(ps@);
    let mut out: Vec<Vec<Element<'a>>> = Vec::new();
    assert(segs.skip(0) =~= segs);
    for i in 0..ps.len()
        invariant
            segs == views(ps@),
            segs == pieces(line@, ';'),
            parse_chains(segs) == chains_view(out@) + parse_chains(segs.skip(i as int)),
    {
        proof {
            assert(segs.skip(i as int).drop_first() =~= segs.skip(i + 1));
            assert(segs[i as int] == ps@[i as int]@);
        }
        let parser = Parser::new(ps[i]);
        assert(parser.rest() =~= words(segs[i as int]));
        match parser.parse() {
            Some(chain) => {
                proof {
                    assert(chains_view(out@.push(chain)) =~= chains_view(out@).push(chain_view(chain@)));
                }
                out.push(chain);
            },
            None => {},
        }
    }
    proof {
        assert(segs.skip(segs.len() as int).len() == 0);
        assert(chains_view(out@) + seq![] =~= chains_view(out@));
    }
    out
}

} // verus!
