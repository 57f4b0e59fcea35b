//! The compositor's command line: which program it starts.
use crate::settings::{is_space, space};
use crate::text::{joined, join, same, views};
use crate::wire::opt_view;
use vstd::prelude::*;

verus! {

/// The arguments behind the first `--`.
pub open spec fn behind_dashes(args: Seq<Seq<char>>) -> Seq<Seq<char>>
    decreases args.len(),
{
    if args.len() == 0 {
        args
    } else if args[0] == "--"@ {
        args.skip(1)
    } else {
        behind_dashes(args.skip(1))
    }
}

/// The command that is to be started: the one behind `--`, or else the configured one.
pub open spec fn child_command(args: Seq<Seq<char>>, configured: Option<Seq<char>>) -> Option<Seq<char>> {
    if behind_dashes(args).len() > 0 {
        Some(joined(behind_dashes(args), " "@))
    } else {
        configured
    }
}

/// The command that is to be started beside the display segment, if any.
pub fn get_child_command(args: &Vec<String>, configured: Option<String>) -> (r: Option<String>)
    ensures
        opt_view(r) == child_command(views(args@), opt_view(configured)),
{
    let ghost a = views(args@);
    let mut i: usize = 0;
    assert(a.skip(0) =~= a);
    while i < args.len()
        invariant
            i <= args@.len(),
            a == views(args@),
            behind_dashes(a.skip(i as int)) == behind_dashes(a),
        decreases args@.len() - i,
    {
        assert(a.skip(i as int)[0] == args@[i as int]@);
        assert(a.skip(i as int).skip(1) =~= a.skip(i + 1));
        if same(args[i].as_str(), "--") {
            let mut rest: Vec<String> = Vec::new();
            let mut j: usize = i + 1;
            assert(views(rest@) =~= a.subrange(i + 1, i + 1));
            while j < args.len()
                invariant
                    i < j <= args@.len(),
                    a == views(args@),
                    rest@.len() == j - i - 1,
                    views(rest@) == a.subrange(i + 1, j as int),
                decreases args@.len() - j,
            {
                let ghost done = views(rest@);
                rest.push(args[j].clone());
                assert(views(rest@) =~= done.push(a[j as int]));
                j = j + 1;
                assert(views(rest@) =~= a.subrange(i + 1, j as int));
            }
            assert(views(rest@) =~= a.skip(i + 1));
            if rest.len() > 0 {
                assert(views(rest@).len() > 0);
                return Some(join(&rest, " "));
            }
            assert(views(rest@).len() == 0);
            return configured;
        }
        i = i + 1;
    }
    configured
}

/// The words that a text has closed with white space, and the one that is open.
pub open spec fn word_state(s: Seq<char>) -> (Seq<Seq<char>>, Seq<char>)
    decreases s.len(),
{
    if s.len() == 0 {
        (Seq::empty(), Seq::empty())
    } else {
        let (done, open) = word_state(s.drop_last());
        if !is_space(s.last()) {
            (done, open.push(s.last()))
        } else if open.len() > 0 {
            (done.push(open), Seq::empty())
        } else {
            (done, open)
        }
    }
}

/// The words of a text: what stands between its white space.
pub open spec fn words_of(s: Seq<char>) -> Seq<Seq<char>> {
    let (done, open) = word_state(s);
    if open.len() > 0 {
        done.push(open)
    } else {
        done
    }
}

/// No white space stands in a text.
pub open spec fn no_space(w: Seq<char>) -> bool {
    forall|j: int| 0 <= j < w.len() ==> !is_space(#[trigger] w[j])
}

proof fn lemma_word_state(s: Seq<char>)
    ensures
        forall|i: int|
            0 <= i < word_state(s).0.len() ==> (#[trigger] word_state(s).0[i]).len() > 0 && no_space(
                word_state(s).0[i],
            ),
        no_space(word_state(s).1),
    decreases s.len(),
{
    if s.len() > 0 {
        lemma_word_state(s.drop_last());
        let (done, open) = word_state(s.drop_last());
        let (done2, open2) = word_state(s);
        assert forall|i: int| 0 <= i < done2.len() implies (#[trigger] done2[i]).len() > 0 && no_space(
            done2[i],
        ) by {
            if i < done.len() {
                assert(done2[i] == done[i]);
            }
        }
        assert forall|j: int| 0 <= j < open2.len() implies !is_space(#[trigger] open2[j]) by {
            if j < open.len() {
                assert(!is_space(open[j]));
            }
        }
    }
}

/// A word is never empty and holds no white space.
pub proof fn lemma_words_hold_no_space(s: Seq<char>, i: int)
    requires
        0 <= i < words_of(s).len(),
    ensures
        words_of(s)[i].len() > 0,
        no_space(words_of(s)[i]),
{
    lemma_word_state(s);
    let (done, open) = word_state(s);
    if i < done.len() {
        assert(words_of(s)[i] == done[i]);
    }
}

/// A command in words: the program and its arguments.
pub fn command_words(cmd: &str) -> (r: Vec<String>)
    ensures
        views(r@) == words_of(cmd@),
{
    let mut done: Vec<String> = Vec::new();
    let mut open = String::new();
    assert(views(done@) =~= Seq::<Seq<char>>::empty());
    assert(open@ =~= Seq::<char>::empty());
    for c in it: cmd.chars()
        invariant
            it.seq() == cmd@,
            (views(done@), open@) == word_state(cmd@.take(it.index())),
    {
        assert(cmd@.take(it.index() + 1).drop_last() =~= cmd@.take(it.index()));
        let ghost before = views(done@);
        let ghost o = open@;
        if !space(c) {
            open.push(c);
        } else if !open.as_str().is_empty() {
            done.push(open);
            open = String::new();
            assert(views(done@) =~= before.push(o));
            assert(open@ =~= Seq::<char>::empty());
        }
    }
    assert(cmd@.take(cmd@.len() as int) =~= cmd@);
    let ghost before = views(done@);
    if !open.as_str().is_empty() {
        let ghost o = open@;
        done.push(open);
        assert(views(done@) =~= before.push(o));
    }
    done
}

/// The command is what stands behind the first `--`, however much stands before it.
pub proof fn lemma_command_behind_dashes(before: Seq<Seq<char>>, command: Seq<Seq<char>>)
    requires
        forall|i: int| 0 <= i < before.len() ==> #[trigger] before[i] != "--"@,
    ensures
        behind_dashes(before + seq!["--"@] + command) == command,
        command.len() > 0 ==> child_command(before + seq!["--"@] + command, None) == Some(joined(command, " "@)),
    decreases before.len(),
{
    let all = before + seq!["--"@] + command;
    if before.len() == 0 {
        assert(all[0] == "--"@);
        assert(all.skip(1) =~= command);
    } else {
        assert(all[0] == before[0]);
        let d = before.skip(1);
        assert(all.skip(1) =~= d + seq!["--"@] + command);
        assert forall|i: int| 0 <= i < d.len() implies #[trigger] d[i] != "--"@ by {
            assert(d[i] == before[i + 1]);
        }
        lemma_command_behind_dashes(d, command);
    }
}

/// Without `--` the configured command counts.
pub proof fn lemma_configured_command(args: Seq<Seq<char>>, configured: Option<Seq<char>>)
    requires
        forall|i: int| 0 <= i < args.len() ==> #[trigger] args[i] != "--"@,
    ensures
        behind_dashes(args).len() == 0,
        child_command(args, configured) == configured,
    decreases args.len(),
{
    if args.len() > 0 {
        assert(args[0] != "--"@);
        let d = args.skip(1);
        assert forall|i: int| 0 <= i < d.len() implies #[trigger] d[i] != "--"@ by {
            assert(d[i] == args[i + 1]);
        }
        lemma_configured_command(d, configured);
    }
}

proof fn lemma_open_word(s: Seq<char>, w: Seq<char>)
    requires
        word_state(s).1.len() == 0,
        no_space(w),
    ensures
        word_state(s + w) == (word_state(s).0, w),
    decreases w.len(),
{
    if w.len() == 0 {
        assert(s + w =~= s);
        assert(word_state(s).1 =~= w);
    } else {
        let d = w.drop_last();
        assert((s + w).drop_last() =~= s + d);
        assert((s + w).last() == w[w.len() - 1]);
        assert(no_space(d)) by {
            assert forall|j: int| 0 <= j < d.len() implies !is_space(#[trigger] d[j]) by {
                assert(d[j] == w[j]);
            }
        }
        lemma_open_word(s, d);
        assert(d.push(w.last()) =~= w);
    }
}

/// A word that follows white space is one more word, and white space alone adds none.
pub proof fn lemma_word_behind_space(s: Seq<char>, c: char, w: Seq<char>)
    requires
        is_space(c),
        no_space(w),
        w.len() > 0,
    ensures
        words_of(s.push(c)) == words_of(s),
        words_of(s.push(c) + w) == words_of(s).push(w),
        words_of(w) == seq![w],
        words_of(Seq::empty()).len() == 0,
{
    assert(s.push(c).drop_last() =~= s);
    assert(s.push(c).last() == c);
    lemma_open_word(s.push(c), w);
    lemma_open_word(Seq::empty(), w);
    assert(Seq::<char>::empty() + w =~= w);
}

} // verus!
