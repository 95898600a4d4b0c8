//! Command lines: how a line of text becomes a program and its arguments.

use crate::text::texts_of;
use vstd::prelude::*;
use vstd::string::*;

verus! {

/// The tokens of a command line: the pieces between its single spaces,
/// empty ones included. There is no quoting and no escaping, so a line
/// with `n` spaces has `n + 1` tokens.
pub open spec fn split_spaces(line: Seq<char>) -> Seq<Seq<char>>
    decreases line.len(),
{
    if line.len() == 0 {
        seq![Seq::empty()]
    } else {
        let before = split_spaces(line.drop_last());
        if line.last() == ' ' {
            before.push(Seq::empty())
        } else {
            before.update(before.len() - 1, before.last().push(line.last()))
        }
    }
}

/// The tokens written out with one space between neighbours.
pub open spec fn join_spaces(tokens: Seq<Seq<char>>) -> Seq<char>
    decreases tokens.len(),
{
    if tokens.len() == 0 {
        Seq::empty()
    } else if tokens.len() == 1 {
        tokens[0]
    } else {
        join_spaces(tokens.drop_last()) + seq![' '] + tokens.last()
    }
}

/// The number of spaces in a line.
pub open spec fn count_spaces(line: Seq<char>) -> nat
    decreases line.len(),
{
    if line.len() == 0 {
        0
    } else if line.last() == ' ' {
        count_spaces(line.drop_last()) + 1
    } else {
        count_spaces(line.drop_last())
    }
}

/// A program and its arguments, each a literal token.
#[derive(Debug, PartialEq)]
pub struct CommandSpec {
    /// The program to run: the first token of the command line.
    pub program: String,
    /// The arguments handed to it: the tokens that follow, in order.
    pub args: Vec<String>,
}

impl CommandSpec {
    /// The tokens of the command, the program first.
    pub open spec fn tokens(&self) -> Seq<Seq<char>> {
        seq![self.program@] + texts_of(self.args@)
    }

    /// Splits a command line on its single spaces.
    pub fn parse(line: &str) -> (command: CommandSpec)
        ensures
            command.tokens() == split_spaces(line@),
    {
        let n = line.unicode_len();
        let mut tokens: Vec<String> = Vec::new();
        let mut start: usize = 0;
        let mut i: usize = 0;
        let mut chars = line.chars();
        proof {
            assert(line@.take(0).len() == 0);
            assert(line@.subrange(0, 0) =~= Seq::<char>::empty());
            assert(texts_of(tokens@).push(line@.subrange(0, 0)) =~= seq![Seq::<char>::empty()]);
        }
        for c in it: chars
            invariant
                n == line@.len(),
                it.seq() == line@,
                i == it.index(),
                start <= i <= n,
                split_spaces(line@.take(i as int)) == texts_of(tokens@).push(
                    line@.subrange(start as int, i as int),
                ),
        {
            proof {
                assert(line@.take(i + 1).drop_last() =~= line@.take(i as int));
                assert(line@.take(i + 1).last() == c);
            }
            if c == ' ' {
                let token = String::from_str(line.substring_char(start, i));
                let ghost before = texts_of(tokens@);
                tokens.push(token);
                assert(texts_of(tokens@) =~= before.push(token@));
                start = i + 1;
                assert(line@.subrange(start as int, i + 1) =~= Seq::<char>::empty());
            } else {
                assert(line@.subrange(start as int, i + 1) =~= line@.subrange(
                    start as int,
                    i as int,
                ).push(c));
                assert(texts_of(tokens@).push(line@.subrange(start as int, i as int)).update(
                    tokens@.len() as int,
                    line@.subrange(start as int, i + 1),
                ) =~= texts_of(tokens@).push(line@.subrange(start as int, i + 1)));
            }
            i += 1;
        }
        assert(line@.take(n as int) =~= line@);
        let ghost before = texts_of(tokens@);
        tokens.push(String::from_str(line.substring_char(start, n)));
        assert(texts_of(tokens@) =~= before.push(line@.subrange(start as int, n as int)));
        let program = tokens.remove(0);
        assert(seq![program@] + texts_of(tokens@) =~= split_spaces(line@));
        CommandSpec { program, args: tokens }
    }
}

/// Splitting loses nothing: the tokens of a line, written out with one
/// space between neighbours, are the line again. No token holds a space,
/// and there is one token more than the line has spaces.
pub proof fn lemma_split_then_join(line: Seq<char>)
    ensures
        join_spaces(split_spaces(line)) == line,
        split_spaces(line).len() == count_spaces(line) + 1,
        forall|i: int, j: int|
            0 <= i < split_spaces(line).len() && 0 <= j < split_spaces(line)[i].len()
                ==> split_spaces(line)[i][j] != ' ',
    decreases line.len(),
{
    if line.len() == 0 {
        assert(join_spaces(split_spaces(line)) =~= line);
    } else {
        let front = line.drop_last();
        let before = split_spaces(front);
        let tokens = split_spaces(line);
        lemma_split_then_join(front);
        if line.last() == ' ' {
            assert(tokens.drop_last() =~= before);
            assert(join_spaces(tokens) =~= front.push(' '));
        } else {
            let grown = before.last().push(line.last());
            if before.len() == 1 {
                assert(join_spaces(tokens) =~= front.push(line.last()));
            } else {
                assert(tokens.drop_last() =~= before.drop_last());
                assert(join_spaces(tokens) =~= join_spaces(before.drop_last()) + seq![' ']
                    + grown);
                assert(join_spaces(before.drop_last()) + seq![' '] + grown =~= (join_spaces(
                    before.drop_last(),
                ) + seq![' '] + before.last()).push(line.last()));
            }
        }
        assert(front.push(line.last()) =~= line);
    }
}

} // verus!
