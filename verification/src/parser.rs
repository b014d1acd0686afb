//! The request parser: a line becomes a command name and its arguments.

use crate::text::characters;
use crate::text::push_char;
use vstd::prelude::*;

verus! {

/// Whether `c` is white space: a character with the Unicode property
/// White_Space.
pub open spec fn is_whitespace(c: char) -> bool {
    let code = c as u32;
    ||| 0x09 <= code <= 0x0D
    ||| code == 0x20
    ||| code == 0x85
    ||| code == 0xA0
    ||| code == 0x1680
    ||| 0x2000 <= code <= 0x200A
    ||| code == 0x2028
    ||| code == 0x2029
    ||| code == 0x202F
    ||| code == 0x205F
    ||| code == 0x3000
}

/// Whether `c` is white space.
pub fn whitespace(c: char) -> (white: bool)
    ensures
        white == is_whitespace(c),
{
    let code: u32 = c as u32;
    (0x09 <= code && code <= 0x0D) || code == 0x20 || code == 0x85 || code == 0xA0 || code
        == 0x1680 || (0x2000 <= code && code <= 0x200A) || code == 0x2028 || code == 0x2029
        || code == 0x202F || code == 0x205F || code == 0x3000
}

/// The length of the longest prefix of `s` that holds no white space.
pub open spec fn word_len(s: Seq<char>) -> nat
    decreases s.len(),
{
    if s.len() == 0 || is_whitespace(s[0]) {
        0
    } else {
        1 + word_len(s.drop_first())
    }
}

/// The word does not reach beyond the text.
pub proof fn lemma_word_len_bound(s: Seq<char>)
    ensures
        word_len(s) <= s.len(),
    decreases s.len(),
{
    if s.len() > 0 && !is_whitespace(s[0]) {
        lemma_word_len_bound(s.drop_first());
    }
}

/// The tokens of `s`: its maximal runs of characters that are not white
/// space, in order.
pub open spec fn tokens(s: Seq<char>) -> Seq<Seq<char>>
    decreases s.len(),
{
    if s.len() == 0 {
        Seq::empty()
    } else if is_whitespace(s[0]) {
        tokens(s.drop_first())
    } else {
        proof {
            lemma_word_len_bound(s);
        }
        seq![s.take(word_len(s) as int)] + tokens(s.skip(word_len(s) as int))
    }
}

/// Whether `s` holds nothing but white space.
pub open spec fn blank(s: Seq<char>) -> bool {
    forall|i: int| 0 <= i < s.len() ==> is_whitespace(#[trigger] s[i])
}

/// A text has no token exactly when it is blank.
pub proof fn lemma_tokens_blank(s: Seq<char>)
    ensures
        tokens(s).len() == 0 <==> blank(s),
    decreases s.len(),
{
    if s.len() > 0 {
        if is_whitespace(s[0]) {
            let rest = s.drop_first();
            lemma_tokens_blank(rest);
            if blank(rest) {
                assert forall|i: int| 0 <= i < s.len() implies is_whitespace(#[trigger] s[i]) by {
                    if i > 0 {
                        assert(s[i] == rest[i - 1]);
                    }
                }
            } else {
                let j = choose|j: int| 0 <= j < rest.len() && !is_whitespace(#[trigger] rest[j]);
                assert(s[j + 1] == rest[j]);
            }
        } else {
            assert(!is_whitespace(s[0]));
        }
    }
}

/// Whether `w` is a word: it is not empty and holds no white space.
pub open spec fn is_word(w: Seq<char>) -> bool {
    &&& w.len() > 0
    &&& forall|i: int| 0 <= i < w.len() ==> !is_whitespace(#[trigger] w[i])
}

/// Every token is a word.
pub proof fn lemma_tokens_are_words(s: Seq<char>)
    ensures
        forall|k: int| 0 <= k < tokens(s).len() ==> is_word(#[trigger] tokens(s)[k]),
    decreases s.len(),
{
    if s.len() > 0 {
        if is_whitespace(s[0]) {
            lemma_tokens_are_words(s.drop_first());
            assert(tokens(s) == tokens(s.drop_first()));
        } else {
            let n = word_len(s) as int;
            lemma_word_len_bound(s);
            lemma_word_is_clean(s);
            lemma_tokens_are_words(s.skip(n));
            let first = seq![s.take(n)];
            let rest = tokens(s.skip(n));
            assert(tokens(s) == first + rest);
            assert(is_word(s.take(n))) by {
                assert(n > 0);
                assert(s.take(n).len() == n);
                assert forall|i: int| 0 <= i < s.take(n).len() implies !is_whitespace(
                    #[trigger] s.take(n)[i],
                ) by {
                    assert(s.take(n)[i] == s[i]);
                }
            }
            assert forall|k: int| 0 <= k < (first + rest).len() implies is_word(
                #[trigger] (first + rest)[k],
            ) by {
                if k == 0 {
                    assert((first + rest)[k] == s.take(n));
                } else {
                    assert((first + rest)[k] == rest[k - 1]);
                }
            }
        }
    }
}

proof fn lemma_word_is_clean(s: Seq<char>)
    ensures
        forall|i: int| 0 <= i < word_len(s) ==> !is_whitespace(#[trigger] s[i]),
    decreases s.len(),
{
    if s.len() > 0 && !is_whitespace(s[0]) {
        let rest = s.drop_first();
        lemma_word_is_clean(rest);
        lemma_word_len_bound(s);
        assert forall|i: int| 0 <= i < word_len(s) implies !is_whitespace(#[trigger] s[i]) by {
            if i > 0 {
                assert(s[i] == rest[i - 1]);
            }
        }
    }
}

proof fn lemma_word_len_before_whitespace(a: Seq<char>, w: char, b: Seq<char>)
    requires
        is_whitespace(w),
    ensures
        word_len(a + seq![w] + b) == word_len(a),
    decreases a.len(),
{
    let whole = a + seq![w] + b;
    if a.len() == 0 {
        assert(whole[0] == w);
    } else {
        assert(whole[0] == a[0]);
        if !is_whitespace(a[0]) {
            assert(whole.drop_first() =~= a.drop_first() + seq![w] + b);
            lemma_word_len_before_whitespace(a.drop_first(), w, b);
        }
    }
}

/// White space delimits: the tokens of two texts with white space between
/// them are the tokens of the first, then those of the second.
pub proof fn lemma_tokens_split(a: Seq<char>, w: char, b: Seq<char>)
    requires
        is_whitespace(w),
    ensures
        tokens(a + seq![w] + b) == tokens(a) + tokens(b),
    decreases a.len(),
{
    let whole = a + seq![w] + b;
    if a.len() == 0 {
        assert(whole[0] == w);
        assert(whole.drop_first() =~= b);
        assert(tokens(a) + tokens(b) =~= tokens(b));
    } else {
        assert(whole[0] == a[0]);
        if is_whitespace(a[0]) {
            assert(whole.drop_first() =~= a.drop_first() + seq![w] + b);
            lemma_tokens_split(a.drop_first(), w, b);
        } else {
            let n = word_len(a) as int;
            lemma_word_len_bound(a);
            lemma_word_len_before_whitespace(a, w, b);
            assert(whole.take(n) =~= a.take(n));
            assert(whole.skip(n) =~= a.skip(n) + seq![w] + b);
            lemma_tokens_split(a.skip(n), w, b);
            assert(seq![a.take(n)] + (tokens(a.skip(n)) + tokens(b)) =~= (seq![a.take(n)] + tokens(
                a.skip(n),
            )) + tokens(b));
        }
    }
}

/// A word is its own and only token.
pub proof fn lemma_token_of_word(s: Seq<char>)
    requires
        is_word(s),
    ensures
        tokens(s) == seq![s],
{
    lemma_word_len_of_word(s);
    assert(!is_whitespace(s[0]));
    assert(s.take(s.len() as int) =~= s);
    assert(s.skip(s.len() as int) =~= Seq::<char>::empty());
    assert(tokens(Seq::<char>::empty()) =~= Seq::<Seq<char>>::empty());
    assert(tokens(s) == seq![s.take(word_len(s) as int)] + tokens(s.skip(word_len(s) as int)));
    assert(seq![s] + Seq::<Seq<char>>::empty() =~= seq![s]);
}

proof fn lemma_word_len_of_word(s: Seq<char>)
    requires
        forall|i: int| 0 <= i < s.len() ==> !is_whitespace(#[trigger] s[i]),
    ensures
        word_len(s) == s.len(),
    decreases s.len(),
{
    if s.len() > 0 {
        let rest = s.drop_first();
        assert forall|i: int| 0 <= i < rest.len() implies !is_whitespace(#[trigger] rest[i]) by {
            assert(rest[i] == s[i + 1]);
        }
        lemma_word_len_of_word(rest);
    }
}

/// Splits `line` into its tokens.
pub fn tokenize(line: &str) -> (words: Vec<String>)
    ensures
        words.deep_view() == tokens(line@),
{
    let chars = characters(line);
    let n = chars.len();
    let mut words: Vec<String> = Vec::new();
    let mut i: usize = 0;
    assert(chars@.skip(0) =~= chars@);
    assert(words.deep_view() + tokens(chars@) =~= tokens(chars@));
    while i < n
        invariant
            n == chars@.len(),
            chars@ == line@,
            i <= n,
            words.deep_view() + tokens(chars@.skip(i as int)) == tokens(chars@),
        decreases n - i,
    {
        let ghost rest = chars@.skip(i as int);
        assert(rest[0] == chars@[i as int]);
        if whitespace(chars[i]) {
            assert(rest.drop_first() =~= chars@.skip(i + 1));
            i = i + 1;
        } else {
            let ghost start = i;
            let ghost before = words.deep_view();
            let mut word = String::new();
            assert(rest.skip(0) =~= rest);
            while i < n && !whitespace(chars[i])
                invariant
                    n == chars@.len(),
                    start <= i <= n,
                    rest == chars@.skip(start as int),
                    word@ == chars@.subrange(start as int, i as int),
                    word_len(rest) == (i - start) + word_len(rest.skip(i - start)),
                decreases n - i,
            {
                let ghost tail = rest.skip(i - start);
                assert(tail[0] == chars@[i as int]);
                assert(tail.drop_first() =~= rest.skip(i + 1 - start));
                push_char(&mut word, chars[i]);
                assert(chars@.subrange(start as int, i as int).push(chars@[i as int])
                    =~= chars@.subrange(start as int, i + 1));
                i = i + 1;
            }
            proof {
                let tail = rest.skip(i - start);
                if i < n {
                    assert(tail[0] == chars@[i as int]);
                }
                assert(word_len(tail) == 0);
                assert(word@ =~= rest.take(word_len(rest) as int));
                assert(rest.skip(i - start) =~= chars@.skip(i as int));
            }
            words.push(word);
            proof {
                assert(words.deep_view() =~= before.push(word@));
                assert(before.push(word@) + tokens(chars@.skip(i as int)) =~= before + (seq![
                    word@,
                ] + tokens(chars@.skip(i as int))));
            }
        }
    }
    assert(words.deep_view() + tokens(chars@.skip(i as int)) =~= words.deep_view());
    words
}

/// Why a line is no request.
#[derive(Debug, PartialEq, Eq, Clone, Copy, Structural)]
pub enum ParseError {
    /// The line holds no token.
    Empty,
}

/// A request: the name of a command and the arguments given to it.
#[derive(Debug, PartialEq, Eq)]
pub struct ParsedInvocation {
    pub command_name: String,
    pub arguments: Vec<String>,
}

/// Reads a request from `line`: its first token names the command, the
/// others are the arguments, in their order.  A blank line is no request.
pub fn parse(line: &str) -> (r: Result<ParsedInvocation, ParseError>)
    ensures
        r is Err <==> blank(line@),
        match r {
            Ok(invocation) => {
                &&& tokens(line@).len() > 0
                &&& invocation.command_name@ == tokens(line@)[0]
                &&& invocation.arguments.deep_view() == tokens(line@).skip(1)
            },
            Err(e) => e == ParseError::Empty,
        },
{
    proof {
        lemma_tokens_blank(line@);
    }
    let mut words = tokenize(line);
    if words.len() == 0 {
        return Err(ParseError::Empty);
    }
    let ghost all = words.deep_view();
    let command_name = words.remove(0);
    proof {
        assert(command_name@ == all[0]);
        assert(words.deep_view() =~= all.skip(1));
    }
    Ok(ParsedInvocation { command_name, arguments: words })
}

/// A command, resolved from a request.
#[derive(Debug, PartialEq, Eq)]
pub enum Commands {
    /// Show the current time.
    Date,
    /// Show the configured feeds.
    Feeds,
    /// Run a program, with the arguments given, if any.
    Shell(String, Option<Vec<String>>),
}

/// What a command is, as mathematics.
pub enum CommandsModel {
    Date,
    Feeds,
    Shell(Seq<char>, Option<Seq<Seq<char>>>),
}

impl View for Commands {
    type V = CommandsModel;

    open spec fn view(&self) -> CommandsModel {
        match *self {
            Commands::Date => CommandsModel::Date,
            Commands::Feeds => CommandsModel::Feeds,
            Commands::Shell(name, args) => CommandsModel::Shell(name@, args.deep_view()),
        }
    }
}

/// The command that a name and arguments stand for.  The two reserved names
/// stand for the built-in commands, whatever the arguments; every other name
/// is taken for a program to run.
pub open spec fn resolved(name: Seq<char>, arguments: Seq<Seq<char>>) -> CommandsModel {
    if name == "date"@ {
        CommandsModel::Date
    } else if name == "feeds"@ {
        CommandsModel::Feeds
    } else {
        CommandsModel::Shell(
            name,
            if arguments.len() == 0 {
                None
            } else {
                Some(arguments)
            },
        )
    }
}

/// Resolves a request to its command.
pub fn resolve(invocation: ParsedInvocation) -> (command: Commands)
    ensures
        command@ == resolved(invocation.command_name@, invocation.arguments.deep_view()),
{
    let ParsedInvocation { command_name, arguments } = invocation;
    if command_name == "date".to_owned() {
        Commands::Date
    } else if command_name == "feeds".to_owned() {
        Commands::Feeds
    } else if arguments.len() == 0 {
        Commands::Shell(command_name, None)
    } else {
        Commands::Shell(command_name, Some(arguments))
    }
}

/// Reads the command that `line` asks for.
pub fn parse_command(line: String) -> (r: Result<Commands, ParseError>)
    ensures
        r is Err <==> blank(line@),
        match r {
            Ok(command) => tokens(line@).len() > 0 && command@ == resolved(
                tokens(line@)[0],
                tokens(line@).skip(1),
            ),
            Err(e) => e == ParseError::Empty,
        },
{
    match parse(line.as_str()) {
        Ok(invocation) => Ok(resolve(invocation)),
        Err(e) => Err(e),
    }
}

} // verus!
