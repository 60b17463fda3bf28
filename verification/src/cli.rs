//! What the command line of the launcher stands for.

use crate::initdata;
use crate::text;
use crate::text::owned;
use vstd::prelude::*;
use vstd::string::*;

verus! {

/// `code` with a backslash before each backslash and each double quote.
pub open spec fn escaped_inner(code: Seq<char>) -> Seq<char>
    decreases code.len(),
{
    if code.len() == 0 {
        Seq::empty()
    } else {
        let c = code.last();
        let before = escaped_inner(code.drop_last());
        if c == '\\' || c == '"' {
            before.push('\\').push(c)
        } else {
            before.push(c)
        }
    }
}

/// `code` in double quotes, escaped.
pub open spec fn escaped(code: Seq<char>) -> Seq<char> {
    seq!['"'] + escaped_inner(code) + seq!['"']
}

/// Escape a string so that the guest-side `uk_argparse` tokenizer preserves it as
/// a single argv entry, regardless of embedded whitespace or quotes.
///
/// Wraps the string in `"..."` and backslash-escapes internal `\` / `"`.
pub fn argparse_escape(code: &str) -> (r: String)
    ensures
        r@ == escaped(code@),
{
    let mut out = String::new();
    out.push('"');
    assert(out@ =~= seq!['"'] + escaped_inner(code@.take(0)));
    for c in it: code.chars()
        invariant
            it.seq() == code@,
            out@ == seq!['"'] + escaped_inner(code@.take(it.index() as int)),
    {
        let ghost before = out@;
        let ghost i = it.index() as int;
        if c == '\\' || c == '"' {
            out.push('\\');
        }
        out.push(c);
        proof {
            assert(code@.take(i + 1).drop_last() =~= code@.take(i));
            assert(code@.take(i + 1).last() == c);
            assert(out@ =~= seq!['"'] + escaped_inner(code@.take(i + 1)));
        }
    }
    assert(code@.take(code@.len() as int) =~= code@);
    out.push('"');
    assert(out@ =~= escaped(code@));
    out
}

/// The application arguments: inline code is run with `-c`, and else the
/// arguments are those that were given.
pub fn app_args(exec: Option<&str>, given: Vec<String>) -> (r: Vec<String>)
    ensures
        match exec {
            Some(code) => r@.len() == 2 && r@[0]@ == "-c"@ && r@[1]@ == escaped(code@),
            None => r == given,
        },
{
    match exec {
        Some(code) => {
            let mut out: Vec<String> = Vec::new();
            out.push(owned("-c"));
            out.push(argparse_escape(code));
            out
        },
        None => given,
    }
}

/// How often the application runs: once, and `repeat` times more.
pub fn total_runs(repeat: u32) -> (r: u32)
    requires
        repeat < u32::MAX,
    ensures
        r == repeat + 1,
{
    1 + repeat
}

// ---------------------------------------------------------------------------
// The guest's tokenizer
// ---------------------------------------------------------------------------

/// What the tokenizer reads as one argument, and what is left: a double quote
/// opens or closes a quoted region and is dropped, a backslash is dropped and the
/// character behind it is kept, and white space outside a quoted region ends the
/// argument.
pub open spec fn read_argument(s: Seq<char>, quoted: bool) -> (Seq<char>, Seq<char>)
    decreases s.len(),
{
    if s.len() == 0 {
        (Seq::empty(), Seq::empty())
    } else if s[0] == '\\' && s.len() > 1 {
        let (arg, rest) = read_argument(s.skip(2), quoted);
        (seq![s[1]] + arg, rest)
    } else if s[0] == '"' {
        read_argument(s.skip(1), !quoted)
    } else if !quoted && text::is_white(s[0]) {
        (Seq::empty(), s.skip(1))
    } else {
        let (arg, rest) = read_argument(s.skip(1), quoted);
        (seq![s[0]] + arg, rest)
    }
}

proof fn lemma_escaped_front(code: Seq<char>)
    requires
        code.len() > 0,
    ensures
        escaped_inner(code) == (if code[0] == '\\' || code[0] == '"' {
            seq!['\\', code[0]]
        } else {
            seq![code[0]]
        }) + escaped_inner(code.drop_first()),
    decreases code.len(),
{
    let first = if code[0] == '\\' || code[0] == '"' {
        seq!['\\', code[0]]
    } else {
        seq![code[0]]
    };
    if code.len() == 1 {
        assert(code.drop_last() =~= Seq::empty());
        assert(code.drop_first() =~= Seq::empty());
        assert(escaped_inner(code.drop_last()) =~= Seq::empty());
        assert(escaped_inner(code.drop_first()) =~= Seq::empty());
        assert(escaped_inner(code) =~= first + escaped_inner(code.drop_first()));
    } else {
        lemma_escaped_front(code.drop_last());
        assert(code.drop_last().drop_first() =~= code.drop_first().drop_last());
        assert(escaped_inner(code) =~= first + escaped_inner(code.drop_first()));
    }
}

proof fn lemma_read_quoted(code: Seq<char>, after: Seq<char>)
    ensures
        read_argument(escaped_inner(code) + after, true) == (
            code + read_argument(after, true).0,
            read_argument(after, true).1,
        ),
    decreases code.len(),
{
    if code.len() == 0 {
        assert(escaped_inner(code) + after =~= after);
        assert(code + read_argument(after, true).0 =~= read_argument(after, true).0);
    } else {
        lemma_escaped_front(code);
        let rest = code.drop_first();
        lemma_read_quoted(rest, after);
        let s = escaped_inner(code) + after;
        let inner = escaped_inner(rest) + after;
        if code[0] == '\\' || code[0] == '"' {
            assert(s.skip(2) =~= inner);
        } else {
            assert(s.skip(1) =~= inner);
        }
        assert(seq![code[0]] + (rest + read_argument(after, true).0) =~= code + read_argument(
            after,
            true,
        ).0);
    }
}

// ---------------------------------------------------------------------------
// Laws
// ---------------------------------------------------------------------------

/// The guest's tokenizer reads escaped code back as one argument, whatever white
/// space, quotes and backslashes it holds.
pub proof fn escaped_code_is_one_argument(code: Seq<char>, after: Seq<char>)
    requires
        after.len() == 0 || text::is_white(after[0]),
    ensures
        read_argument(escaped(code) + after, false) == (
            code,
            if after.len() == 0 {
                after
            } else {
                after.skip(1)
            },
        ),
{
    let s = escaped(code) + after;
    let tail = seq!['"'] + after;
    assert(s.skip(1) =~= escaped_inner(code) + tail);
    lemma_read_quoted(code, tail);
    assert(tail.skip(1) =~= after);
    assert(read_argument(tail, true) == read_argument(after, false));
    assert(code + Seq::<char>::empty() =~= code);
    if after.len() == 0 {
        assert(after =~= Seq::empty());
    }
}

/// Inline code reaches the guest's interpreter whole: the tokenizer reads the
/// command line as `-c` and the code, and nothing else.
pub proof fn inline_code_reaches_the_guest_whole(args: Seq<String>, code: Seq<char>)
    requires
        args.len() == 2,
        args[0]@ == "-c"@,
        args[1]@ == escaped(code),
    ensures
        ({
            let (first, rest) = read_argument(initdata::cmdline_text(args), false);
            first == "-c"@ && read_argument(rest, false) == (code, Seq::<char>::empty())
        }),
{
    reveal_strlit("-c");
    reveal_strlit(" ");
    let list = text::texts(args);
    let line = initdata::cmdline_text(args);
    assert(list.len() == 2);
    assert(list[0] == "-c"@ && list[1] == escaped(code));
    reveal_with_fuel(text::joined, 3);
    assert(line =~= seq!['-', 'c', ' '] + escaped(code));
    reveal_with_fuel(read_argument, 4);
    assert(line.skip(1).skip(1).skip(1) =~= escaped(code));
    assert(line.skip(1)[0] == 'c');
    assert(line.skip(1).skip(1)[0] == ' ');
    let (first, rest) = read_argument(line, false);
    assert(first =~= "-c"@);
    assert(rest == escaped(code));
    escaped_code_is_one_argument(code, Seq::empty());
    assert(escaped(code) + Seq::<char>::empty() =~= escaped(code));
}

/// What the tokenizer reads as the first `n` arguments, and what is left then.
pub open spec fn read_arguments(s: Seq<char>, n: nat) -> (Seq<Seq<char>>, Seq<char>)
    decreases n,
{
    if n == 0 {
        (Seq::empty(), s)
    } else {
        let (first, rest) = read_argument(s, false);
        let (others, left) = read_arguments(rest, (n - 1) as nat);
        (seq![first] + others, left)
    }
}

/// An argument that the tokenizer reads as it stands: it is not empty, and holds
/// neither white space nor quotes nor backslashes.
pub open spec fn is_plain(arg: Seq<char>) -> bool {
    &&& arg.len() > 0
    &&& forall|i: int|
        0 <= i < arg.len() ==> !text::is_white(#[trigger] arg[i]) && arg[i] != '"' && arg[i] != '\\'
}

proof fn lemma_read_plain(arg: Seq<char>, after: Seq<char>)
    requires
        forall|i: int|
            0 <= i < arg.len() ==> !text::is_white(#[trigger] arg[i]) && arg[i] != '"' && arg[i]
                != '\\',
        after.len() == 0 || text::is_white(after[0]) && after[0] != '"' && after[0] != '\\',
    ensures
        read_argument(arg + after, false) == (
            arg,
            if after.len() == 0 {
                after
            } else {
                after.skip(1)
            },
        ),
    decreases arg.len(),
{
    if arg.len() == 0 {
        assert(arg + after =~= after);
        assert(arg =~= Seq::empty());
        if after.len() == 0 {
            assert(after =~= Seq::empty());
        }
    } else {
        let rest = arg.drop_first();
        assert((arg + after)[0] == arg[0]);
        assert((arg + after).skip(1) =~= rest + after);
        assert forall|i: int| 0 <= i < rest.len() implies !text::is_white(#[trigger] rest[i])
            && rest[i] != '"' && rest[i] != '\\' by {
            assert(rest[i] == arg[i + 1]);
        }
        lemma_read_plain(rest, after);
        assert(seq![arg[0]] + rest =~= arg);
    }
}

proof fn lemma_read_joined(list: Seq<Seq<char>>)
    requires
        forall|i: int| 0 <= i < list.len() ==> is_plain(#[trigger] list[i]),
    ensures
        read_arguments(text::joined(list, seq![' ']), list.len()) == (list, Seq::<char>::empty()),
    decreases list.len(),
{
    let sep = seq![' '];
    if list.len() == 0 {
        text::joining_goes_on_behind_the_separator(list, list, sep);
        assert(list =~= Seq::empty());
    } else {
        let first = list[0];
        let rest = list.drop_first();
        assert(is_plain(list[0]));
        assert forall|i: int| 0 <= i < rest.len() implies is_plain(#[trigger] rest[i]) by {
            assert(rest[i] == list[i + 1]);
        }
        lemma_read_joined(rest);
        let one = seq![first];
        text::joining_goes_on_behind_the_separator(one, rest, sep);
        assert(one + rest =~= list);
        if rest.len() == 0 {
            assert(list =~= one);
            text::joining_goes_on_behind_the_separator(rest, rest, sep);
            lemma_read_plain(first, Seq::empty());
            assert(first + Seq::<char>::empty() =~= first);
            assert(rest =~= Seq::empty());
            assert(read_arguments(Seq::<char>::empty(), 0) == (rest, Seq::<char>::empty()));
        } else {
            let tail = text::joined(rest, sep);
            lemma_read_plain(first, sep + tail);
            assert(first + sep + tail =~= first + (sep + tail));
            assert((sep + tail).skip(1) =~= tail);
        }
    }
}

/// The guest gets back every argument: however many there are, its tokenizer reads
/// them one by one in their order, and nothing is left.
pub proof fn the_guest_reads_every_argument(args: Seq<String>)
    requires
        forall|i: int| 0 <= i < args.len() ==> is_plain((#[trigger] args[i])@),
    ensures
        read_arguments(initdata::cmdline_text(args), args.len()).0 == text::texts(args),
        read_arguments(initdata::cmdline_text(args), args.len()).1.len() == 0,
        forall|i: int|
            0 <= i < args.len() ==> #[trigger] read_arguments(
                initdata::cmdline_text(args),
                args.len(),
            ).0[i] == args[i]@,
{
    reveal_strlit(" ");
    assert(" "@ =~= seq![' ']);
    let list = text::texts(args);
    assert forall|i: int| 0 <= i < list.len() implies is_plain(#[trigger] list[i]) by {
        assert(list[i] == args[i]@);
    }
    lemma_read_joined(list);
}

/// Only quotes and backslashes are escaped, each by one backslash before it; all else
/// stands between the quotes as it is.
pub proof fn only_quotes_and_backslashes_are_escaped(a: Seq<char>, c: char, b: Seq<char>)
    ensures
        escaped(a + seq![c] + b) == seq!['"'] + escaped_inner(a) + (if c == '"' || c == '\\' {
            seq!['\\', c]
        } else {
            seq![c]
        }) + escaped_inner(b) + seq!['"'],
        escaped(Seq::empty()) == seq!['"', '"'],
{
    let mid = if c == '"' || c == '\\' {
        seq!['\\', c]
    } else {
        seq![c]
    };
    let one = seq![c];
    assert(one.drop_last() =~= Seq::empty());
    assert(escaped_inner(one.drop_last()) =~= Seq::empty());
    assert(escaped_inner(one) =~= mid);
    lemma_escaped_behind(a, one);
    lemma_escaped_behind(a + one, b);
    assert(escaped(a + one + b) =~= seq!['"'] + escaped_inner(a) + mid + escaped_inner(b) + seq![
        '"',
    ]);
    assert(escaped(Seq::empty()) =~= seq!['"', '"']);
}

proof fn lemma_escaped_behind(a: Seq<char>, b: Seq<char>)
    ensures
        escaped_inner(a + b) == escaped_inner(a) + escaped_inner(b),
    decreases b.len(),
{
    if b.len() == 0 {
        assert(a + b =~= a);
        assert(escaped_inner(b) =~= Seq::empty());
        assert(escaped_inner(a) + escaped_inner(b) =~= escaped_inner(a));
    } else {
        assert((a + b).drop_last() =~= a + b.drop_last());
        lemma_escaped_behind(a, b.drop_last());
        assert(escaped_inner(a + b) =~= escaped_inner(a) + escaped_inner(b));
    }
}

} // verus!
