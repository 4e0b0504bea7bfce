//! The arguments of the command that may run after a folder.

use vstd::prelude::*;
use vstd::string::StringExecFns;
use crate::text::{chars_of, push_char, texts};

verus! {

/// How far a line of arguments has been read: the arguments that are
/// complete, the one that is being read, and whether a quote is open.
pub struct Scan {
    pub done: Seq<Seq<char>>,
    pub current: Seq<char>,
    pub in_quote: bool,
}

/// A character that opens or closes a quote.
pub open spec fn is_quote(c: char) -> bool {
    c == '"' || c == '\''
}

/// A character that separates arguments outside quotes.
pub open spec fn is_blank(c: char) -> bool {
    c == ' ' || c == '\t'
}

impl Scan {
    /// Nothing read yet.
    pub open spec fn start() -> Scan {
        Scan { done: Seq::empty(), current: Seq::empty(), in_quote: false }
    }

    /// Reading one more character. A quote of either kind opens or closes
    /// quoting and is dropped. A blank outside quotes ends the argument that
    /// is being read, if it has any character. Every other character joins
    /// the argument.
    pub open spec fn step(self, c: char) -> Scan {
        if is_quote(c) {
            Scan { in_quote: !self.in_quote, ..self }
        } else if is_blank(c) && !self.in_quote {
            if self.current.len() > 0 {
                Scan { done: self.done.push(self.current), current: Seq::empty(), ..self }
            } else {
                self
            }
        } else {
            Scan { current: self.current.push(c), ..self }
        }
    }

    /// Reading a whole line, from the left.
    pub open spec fn read(line: Seq<char>) -> Scan
        decreases line.len(),
    {
        if line.len() == 0 {
            Scan::start()
        } else {
            Scan::read(line.drop_last()).step(line.last())
        }
    }

    /// The arguments when the line ends here: the complete ones and, if it
    /// has any character, the one that was being read.
    pub open spec fn finish(self) -> Seq<Seq<char>> {
        if self.current.len() > 0 {
            self.done.push(self.current)
        } else {
            self.done
        }
    }

    /// No complete argument is empty or holds a quote, and the one being
    /// read holds no quote.
    pub open spec fn tidy(self) -> bool {
        &&& forall|i: int, j: int|
            0 <= i < self.done.len() && 0 <= j < self.done[i].len() ==> !is_quote(
                #[trigger] self.done[i][j],
            )
        &&& forall|i: int| 0 <= i < self.done.len() ==> (#[trigger] self.done[i]).len() > 0
        &&& forall|j: int| 0 <= j < self.current.len() ==> !is_quote(#[trigger] self.current[j])
    }
}

/// The arguments that a line stands for: it is cut at blanks and tabs that
/// are outside quotes, and the quotes are dropped.
pub open spec fn split_args_spec(line: Seq<char>) -> Seq<Seq<char>> {
    Scan::read(line).finish()
}

/// However far a line has been read, no complete argument is empty and no
/// argument holds a quote.
pub proof fn lemma_read_tidy(line: Seq<char>)
    ensures
        Scan::read(line).tidy(),
    decreases line.len(),
{
    if line.len() > 0 {
        lemma_read_tidy(line.drop_last());
        let before = Scan::read(line.drop_last());
        let after = before.step(line.last());
        let c = line.last();
        if is_quote(c) {
        } else if is_blank(c) && !before.in_quote {
            if before.current.len() > 0 {
                assert forall|i: int, j: int|
                    0 <= i < after.done.len() && 0 <= j < after.done[i].len() implies !is_quote(
                    #[trigger] after.done[i][j],
                ) by {
                    if i < before.done.len() {
                        assert(after.done[i] == before.done[i]);
                    } else {
                        assert(after.done[i] == before.current);
                    }
                }
                assert forall|i: int| 0 <= i < after.done.len() implies (
                #[trigger] after.done[i]).len() > 0 by {
                    if i < before.done.len() {
                        assert(after.done[i] == before.done[i]);
                    }
                }
            }
        } else {
            assert forall|j: int| 0 <= j < after.current.len() implies !is_quote(
                #[trigger] after.current[j],
            ) by {
                if j < before.current.len() {
                    assert(after.current[j] == before.current[j]);
                }
            }
        }
    }
}

/// No argument of a line is empty, and none holds a quote.
pub proof fn lemma_split_args_tidy(line: Seq<char>)
    ensures
        forall|i: int|
            0 <= i < split_args_spec(line).len() ==> (#[trigger] split_args_spec(line)[i]).len()
                > 0,
        forall|i: int, j: int|
            0 <= i < split_args_spec(line).len() && 0 <= j < split_args_spec(line)[i].len()
                ==> !is_quote(#[trigger] split_args_spec(line)[i][j]),
{
    lemma_read_tidy(line);
    let scan = Scan::read(line);
    let args = split_args_spec(line);
    assert forall|i: int| 0 <= i < args.len() implies (#[trigger] args[i]).len() > 0 by {
        if i < scan.done.len() {
            assert(args[i] == scan.done[i]);
        }
    }
    assert forall|i: int, j: int| 0 <= i < args.len() && 0 <= j < args[i].len() implies !is_quote(
        #[trigger] args[i][j],
    ) by {
        if i < scan.done.len() {
            assert(args[i] == scan.done[i]);
        } else {
            assert(args[i] == scan.current);
        }
    }
}

/// Cuts a line into arguments at blanks and tabs. A quote of either kind
/// keeps the blanks up to the next quote inside the argument; the quotes
/// themselves are dropped. No argument is empty.
pub fn split_args(args: &str) -> (result: Vec<String>)
    ensures
        texts(result@) == split_args_spec(args@),
{
    let line = chars_of(args);
    let mut result: Vec<String> = Vec::new();
    let mut current = String::new();
    let mut in_quote = false;
    let mut i: usize = 0;
    assert(line@.take(0) =~= Seq::<char>::empty());
    assert(texts(result@) =~= Seq::<Seq<char>>::empty());
    while i < line.len()
        invariant
            i <= line@.len(),
            Scan::read(line@.take(i as int)) == (Scan {
                done: texts(result@),
                current: current@,
                in_quote,
            }),
        decreases line@.len() - i,
    {
        let c = line[i];
        let ghost before = texts(result@);
        proof {
            assert(line@.take(i + 1).drop_last() =~= line@.take(i as int));
            assert(line@.take(i + 1).last() == c);
        }
        if c == '"' || c == '\'' {
            in_quote = !in_quote;
        } else if (c == ' ' || c == '\t') && !in_quote {
            if current.as_str().unicode_len() > 0 {
                let ghost word = current@;
                result.push(current);
                current = String::new();
                assert(texts(result@) =~= before.push(word));
            }
        } else {
            push_char(&mut current, c);
        }
        i = i + 1;
    }
    assert(line@.take(i as int) =~= line@);
    if current.as_str().unicode_len() > 0 {
        let ghost before = texts(result@);
        let ghost word = current@;
        result.push(current);
        assert(texts(result@) =~= before.push(word));
    }
    result
}

/// The word that stands for the output folder in an argument.
pub open spec fn placeholder() -> Seq<char> {
    seq!['{', 'o', 'u', 't', 'p', 'u', 't', '}']
}

/// `text` has the placeholder at position `at`.
pub open spec fn placeholder_at(text: Seq<char>, at: int) -> bool {
    0 <= at && at + 8 <= text.len() && text.subrange(at, at + 8) == placeholder()
}

/// An argument with every placeholder replaced by the output folder,
/// reading from the left.
pub open spec fn with_output(arg: Seq<char>, output: Seq<char>) -> Seq<char>
    decreases arg.len(),
{
    if arg.len() == 0 {
        arg
    } else if placeholder_at(arg, 0) {
        output + with_output(arg.skip(8), output)
    } else {
        seq![arg[0]] + with_output(arg.skip(1), output)
    }
}

/// Tells whether `text` has the placeholder at position `at`.
fn has_placeholder(text: &Vec<char>, at: usize) -> (found: bool)
    requires
        at <= text@.len(),
    ensures
        found == placeholder_at(text@, at as int),
{
    if text.len() - at < 8 {
        return false;
    }
    let found = text[at] == '{' && text[at + 1] == 'o' && text[at + 2] == 'u' && text[at + 3] == 't'
        && text[at + 4] == 'p' && text[at + 5] == 'u' && text[at + 6] == 't' && text[at + 7]
        == '}';
    proof {
        let part = text@.subrange(at as int, at + 8);
        if found {
            assert(part =~= placeholder());
        } else {
            assert(part[0] == text@[at as int]);
            assert(part[1] == text@[at + 1]);
            assert(part[2] == text@[at + 2]);
            assert(part[3] == text@[at + 3]);
            assert(part[4] == text@[at + 4]);
            assert(part[5] == text@[at + 5]);
            assert(part[6] == text@[at + 6]);
            assert(part[7] == text@[at + 7]);
        }
    }
    found
}

/// Puts the output folder in the place of every `{output}` in an argument.
pub fn fill_in_output(arg: &str, output: &str) -> (filled: String)
    ensures
        filled@ == with_output(arg@, output@),
{
    let text = chars_of(arg);
    let mut filled = String::new();
    let mut i: usize = 0;
    assert(text@.skip(0) =~= text@);
    while i < text.len()
        invariant
            i <= text@.len(),
            text@ == arg@,
            with_output(arg@, output@) == filled@ + with_output(text@.skip(i as int), output@),
        decreases text@.len() - i,
    {
        let ghost rest = text@.skip(i as int);
        proof {
            assert(placeholder_at(rest, 0) == placeholder_at(text@, i as int)) by {
                if i + 8 <= text@.len() {
                    assert(rest.subrange(0, 8) =~= text@.subrange(i as int, i + 8));
                }
            }
        }
        if has_placeholder(&text, i) {
            let ghost before = filled@;
            filled.append(output);
            proof {
                assert(rest.skip(8) =~= text@.skip(i + 8));
                assert(before + (output@ + with_output(rest.skip(8), output@)) =~= (before
                    + output@) + with_output(rest.skip(8), output@));
            }
            i = i + 8;
        } else {
            let ghost before = filled@;
            push_char(&mut filled, text[i]);
            proof {
                assert(rest.skip(1) =~= text@.skip(i + 1));
                assert(before + (seq![rest[0]] + with_output(rest.skip(1), output@))
                    =~= before.push(rest[0]) + with_output(rest.skip(1), output@));
            }
            i = i + 1;
        }
    }
    proof {
        assert(filled@ + Seq::<char>::empty() =~= filled@);
    }
    filled
}

/// The arguments that the command is run with: the line cut into arguments,
/// and in each of them the output folder in the place of every `{output}`.
pub open spec fn post_process_args_spec(line: Seq<char>, output: Seq<char>) -> Seq<Seq<char>> {
    split_args_spec(line).map_values(|arg: Seq<char>| with_output(arg, output))
}

/// The arguments for the command that runs after a folder, from the
/// configured line and the output folder of that folder.
pub fn post_process_args(line: &str, output: &str) -> (result: Vec<String>)
    ensures
        texts(result@) == post_process_args_spec(line@, output@),
{
    let template = split_args(line);
    let mut result: Vec<String> = Vec::new();
    let mut i: usize = 0;
    while i < template.len()
        invariant
            i <= template@.len(),
            texts(template@) == split_args_spec(line@),
            texts(result@) == post_process_args_spec(line@, output@).take(i as int),
        decreases template@.len() - i,
    {
        let ghost before = texts(result@);
        let filled = fill_in_output(template[i].as_str(), output);
        result.push(filled);
        proof {
            assert(texts(template@)[i as int] == template@[i as int]@);
            assert(texts(result@) =~= before.push(filled@));
            assert(post_process_args_spec(line@, output@).take(i + 1)
                =~= post_process_args_spec(line@, output@).take(i as int).push(filled@));
        }
        i = i + 1;
    }
    proof {
        assert(post_process_args_spec(line@, output@).take(i as int)
            =~= post_process_args_spec(line@, output@));
    }
    result
}

} // verus!
