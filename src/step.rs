use std::marker::PhantomData;

use vstd::prelude::*;

verus! {

/// One stage of a chain of transformations: the value that the previous
/// stage produced, waiting for the next stage.
pub struct CliStep<PrevOut, ThisOut> {
    input: PrevOut,
    _marker: PhantomData<(PrevOut, ThisOut)>,
}

impl<PrevOut, ThisOut> CliStep<PrevOut, ThisOut> {
    /// The value that this stage holds.
    pub closed spec fn value(&self) -> PrevOut {
        self.input
    }

    pub fn new(input: PrevOut) -> (r: Self)
        ensures
            r.value() == input,
    {
        Self { input, _marker: PhantomData }
    }

    /// Runs `this_step` on the held value and holds its result.
    pub fn then<NextOut, F>(self, this_step: F) -> (r: CliStep<ThisOut, NextOut>)
        where
            F: FnOnce(PrevOut) -> ThisOut,
        requires
            this_step.requires((self.value(),)),
        ensures
            this_step.ensures((self.value(),), r.value()),
    {
        let this_out = this_step(self.input);
        CliStep::new(this_out)
    }
}

impl<PrevOut> CliStep<PrevOut, ()> {
    /// Runs `end_step` on the held value and ends the chain.
    pub fn end<F>(self, end_step: F) -> (r: CliStep<(), ()>)
        where
            F: FnOnce(PrevOut),
        requires
            end_step.requires((self.value(),)),
        ensures
            end_step.ensures((self.value(),), ()),
    {
        end_step(self.input);
        CliStep::new(())
    }
}

/// How `Debug` renders an optional text.
pub uninterp spec fn debug_text(d: Option<Seq<char>>) -> Seq<char>;

pub open spec fn opt_text(d: Option<&str>) -> Option<Seq<char>> {
    match d {
        Some(s) => Some(s@),
        None => None,
    }
}

/// Relies on the `Debug` impl of `Option<&str>`: its rendering depends on the
/// value alone.
#[verifier::external_body]
fn render_debug(d: Option<&str>) -> (r: String)
    ensures
        r@ == debug_text(opt_text(d)),
        d is None ==> r@ == seq!['N', 'o', 'n', 'e'],
{
    format!("{:?}", d)
}

/// The answer that a question yields: the question and its default, on one line.
pub open spec fn answer_text(q: Seq<char>, d: Option<Seq<char>>) -> Seq<char> {
    let shown = match d {
        Some(_) => debug_text(d),
        None => seq!['N', 'o', 'n', 'e'],
    };
    seq!['q', ':', ' '] + q + seq![',', ' ', 'd', ':', ' '] + shown + seq!['\n']
}

/// Builds a value from a series of questions: each answer is handed, with
/// the value, to a step that updates it.
pub struct CliDataBuilder<T> {
    data: T,
    question: String,
    default: Option<String>,
}

impl<T> CliDataBuilder<T> {
    pub closed spec fn data(&self) -> T {
        self.data
    }

    /// The question that the next step asks.
    pub closed spec fn question(&self) -> Seq<char> {
        self.question@
    }

    /// The answer that stands when none is given.
    pub closed spec fn default_answer(&self) -> Option<Seq<char>> {
        match self.default {
            Some(d) => Some(d@),
            None => None,
        }
    }

    pub fn new(data: T) -> (r: Self)
        ensures
            r.data() == data,
            r.question() == Seq::<char>::empty(),
            r.default_answer() is None,
    {
        Self { data, question: String::new(), default: None }
    }

    /// Sets the question that the next step asks.
    pub fn ask(self, q: String) -> (r: Self)
        ensures
            r.data() == self.data(),
            r.question() == q@,
            r.default_answer() == self.default_answer(),
    {
        let mut s = self;
        s.question = q;
        s
    }

    /// Sets the question that the next step asks, with its default answer.
    pub fn ask_with_default(self, q: String, d: String) -> (r: Self)
        ensures
            r.data() == self.data(),
            r.question() == q@,
            r.default_answer() == Some(d@),
    {
        let mut s = self;
        s.question = q;
        s.default = Some(d);
        s
    }

    /// The answer to the current question.
    fn get_ans(q: &str, d: Option<&str>) -> (r: String)
        ensures
            r@ == answer_text(q@, opt_text(d)),
    {
        let mut s = String::new();
        s.append("q: ");
        s.append(q);
        s.append(", d: ");
        let rendered = render_debug(d);
        s.append(rendered.as_str());
        s.append("\n");
        proof {
            reveal_strlit("q: ");
            reveal_strlit(", d: ");
            reveal_strlit("\n");
        }
        assert(s@ =~= answer_text(q@, opt_text(d)));
        s
    }

    /// Asks the current question and hands the answer, with the value, to `f`.
    pub fn then<F>(self, f: F) -> (r: Self)
        where
            F: FnOnce(&str, &mut T),
        requires
            forall|a: &str, t: &mut T| f.requires((a, t)),
        ensures
            r.question() == self.question(),
            r.default_answer() == self.default_answer(),
            exists|a: &str, d: &mut T|
                a@ == answer_text(self.question(), self.default_answer()) && *d == self.data()
                    && #[trigger] f.ensures((a, d), ()) && r.data() == *final(d),
    {
        let mut s = self;
        let ans = match &s.default {
            Some(d) => Self::get_ans(s.question.as_str(), Some(d.as_str())),
            None => Self::get_ans(s.question.as_str(), None),
        };
        f(ans.as_str(), &mut s.data);
        s
    }

    pub fn build(&self) -> (r: &Self)
        ensures
            r == self,
    {
        self
    }

    /// The value built so far.
    pub fn end(self) -> (r: T)
        ensures
            r == self.data(),
    {
        self.data
    }
}

} // verus!
