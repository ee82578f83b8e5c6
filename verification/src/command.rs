//! The command language of the map writer's prompt.

use vstd::prelude::*;

verus! {

/// One line typed at the prompt.
#[derive(Debug)]
pub enum Command {
    /// `set <k> <v>`
    Put { key: String, value: String },
    /// `del <k>`
    Del { key: String },
    /// `dump`
    Dump,
    /// Nothing but white space.
    Blank,
    /// Anything else.
    Unknown,
}

/// A command as a mathematical value.
pub enum CommandView {
    Put { key: Seq<char>, value: Seq<char> },
    Del { key: Seq<char> },
    Dump,
    Blank,
    Unknown,
}

impl View for Command {
    type V = CommandView;

    open spec fn view(&self) -> CommandView {
        match self {
            Command::Put { key, value } => CommandView::Put { key: key@, value: value@ },
            Command::Del { key } => CommandView::Del { key: key@ },
            Command::Dump => CommandView::Dump,
            Command::Blank => CommandView::Blank,
            Command::Unknown => CommandView::Unknown,
        }
    }
}

/// The characters that Unicode counts as white space.
pub open spec fn white(c: char) -> bool {
    ||| '\u{9}' <= c <= '\u{d}'
    ||| c == ' '
    ||| c == '\u{85}'
    ||| c == '\u{a0}'
    ||| c == '\u{1680}'
    ||| '\u{2000}' <= c <= '\u{200a}'
    ||| c == '\u{2028}'
    ||| c == '\u{2029}'
    ||| c == '\u{202f}'
    ||| c == '\u{205f}'
    ||| c == '\u{3000}'
}

/// The text without the white space at its two ends.
pub open spec fn trimmed(text: Seq<char>) -> Seq<char>
    decreases text.len(),
{
    if text.len() == 0 {
        text
    } else if white(text.first()) {
        trimmed(text.drop_first())
    } else if white(text.last()) {
        trimmed(text.drop_last())
    } else {
        text
    }
}

/// The text is `del <k>`. A key holds no space.
pub open spec fn is_del(text: Seq<char>, key: Seq<char>) -> bool {
    !key.contains(' ') && text == "del "@ + key
}

/// The text is `set <k> <v>`. A key holds no space; a value may.
pub open spec fn is_set(text: Seq<char>, key: Seq<char>, value: Seq<char>) -> bool {
    !key.contains(' ') && text == "set "@ + key + " "@ + value
}

/// The trimmed text reads as the command.
pub open spec fn reads_as(text: Seq<char>, command: CommandView) -> bool {
    match command {
        CommandView::Put { key, value } => is_set(text, key, value),
        CommandView::Del { key } => is_del(text, key),
        CommandView::Dump => text == "dump"@,
        CommandView::Blank => text.len() == 0,
        CommandView::Unknown => {
            &&& forall|key: Seq<char>, value: Seq<char>| !is_set(text, key, value)
            &&& forall|key: Seq<char>| !is_del(text, key)
            &&& text != "dump"@
            &&& text.len() != 0
        },
    }
}

/// Whether Unicode counts the character as white space.
pub fn is_white(c: char) -> (yes: bool)
    ensures
        yes == white(c),
{
    ('\u{9}' <= c && c <= '\u{d}') || c == ' ' || c == '\u{85}' || c == '\u{a0}' || c == '\u{1680}'
        || ('\u{2000}' <= c && c <= '\u{200a}') || c == '\u{2028}' || c == '\u{2029}' || c
        == '\u{202f}' || c == '\u{205f}' || c == '\u{3000}'
}

/// Removes the white space at the two ends of a text.
pub fn trim(text: &str) -> (inner: &str)
    ensures
        inner@ == trimmed(text@),
{
    let mut chars: Vec<char> = Vec::new();
    for c in it: text.chars()
        invariant
            it.seq() == text@,
            chars@ == text@.take(it.index()),
    {
        chars.push(c);
    }
    assert(chars@ =~= text@);
    let mut start: usize = 0;
    let mut end: usize = chars.len();
    assert(text@.subrange(0, end as int) =~= text@);
    while start < end && is_white(chars[start])
        invariant
            chars@ == text@,
            start <= end == chars@.len(),
            trimmed(text@.subrange(start as int, end as int)) == trimmed(text@),
        decreases end - start,
    {
        assert(text@.subrange(start as int, end as int).drop_first() =~= text@.subrange(
            start + 1,
            end as int,
        ));
        start = start + 1;
    }
    while start < end && is_white(chars[end - 1])
        invariant
            chars@ == text@,
            start <= end <= chars@.len(),
            start < end ==> !white(text@[start as int]),
            trimmed(text@.subrange(start as int, end as int)) == trimmed(text@),
        decreases end - start,
    {
        assert(text@.subrange(start as int, end as int).drop_last() =~= text@.subrange(
            start as int,
            end - 1,
        ));
        end = end - 1;
    }
    text.substring_char(start, end)
}

/// The position of the first space from `from` on, or the length of the text if there is none.
fn find_space(text: &str, from: usize, len: usize) -> (at: usize)
    requires
        from <= len == text@.len(),
    ensures
        from <= at <= len,
        at < len ==> text@[at as int] == ' ',
        forall|i: int| from <= i < at ==> text@[i] != ' ',
{
    let mut at: usize = from;
    while at < len && text.get_char(at) != ' '
        invariant
            from <= at <= len == text@.len(),
            forall|i: int| from <= i < at ==> text@[i] != ' ',
        decreases len - at,
    {
        at = at + 1;
    }
    at
}

/// What stands before the first space is the first word of a command.
proof fn lemma_two_words(text: Seq<char>, first: int)
    requires
        0 <= first <= text.len(),
        first < text.len() ==> text[first] == ' ',
        forall|i: int| 0 <= i < first ==> text[i] != ' ',
    ensures
        forall|key: Seq<char>| #[trigger]
            is_del(text, key) ==> first == 3 && text.take(3) == "del"@ && key == text.skip(4),
        forall|key: Seq<char>, value: Seq<char>| #[trigger]
            is_set(text, key, value) ==> first == 3 && text.take(3) == "set"@ && text.skip(4) == key
                + " "@ + value,
        text == "dump"@ ==> first == text.len(),
{
    reveal_strlit("set");
    reveal_strlit("del");
    reveal_strlit("dump");
    reveal_strlit("set ");
    reveal_strlit("del ");
    reveal_strlit(" ");
    assert forall|key: Seq<char>| #[trigger] is_del(text, key) implies first == 3 && text.take(3)
        == "del"@ && key == text.skip(4) by {
        assert(text[3] == ' ');
        assert(text[0] == 'd' && text[1] == 'e' && text[2] == 'l');
        assert(text.take(3) =~= "del"@);
        assert(key =~= text.skip(4));
    }
    assert forall|key: Seq<char>, value: Seq<char>| #[trigger]
        is_set(text, key, value) implies first == 3 && text.take(3) == "set"@ && text.skip(4) == key
        + " "@ + value by {
        assert(text[3] == ' ');
        assert(text[0] == 's' && text[1] == 'e' && text[2] == 't');
        assert(text.take(3) =~= "set"@);
        assert(text.skip(4) =~= key + " "@ + value);
    }
    if text == "dump"@ && first < text.len() {
        assert(text[0] == 'd' && text[1] == 'u' && text[2] == 'm' && text[3] == 'p');
    }
}

/// What stands between the first two spaces of a `set` is the key, and a `del` has only one space.
proof fn lemma_three_words(text: Seq<char>, first: int, second: int)
    requires
        0 <= first < second <= text.len(),
        text[first] == ' ',
        forall|i: int| 0 <= i < first ==> text[i] != ' ',
        second < text.len() ==> text[second] == ' ',
        forall|i: int| first < i < second ==> text[i] != ' ',
    ensures
        forall|key: Seq<char>| #[trigger] is_del(text, key) ==> second == text.len(),
        forall|key: Seq<char>, value: Seq<char>| #[trigger]
            is_set(text, key, value) ==> second < text.len() && key == text.subrange(4, second)
                && value == text.skip(second + 1),
{
    reveal_strlit("set ");
    reveal_strlit("del ");
    reveal_strlit(" ");
    lemma_two_words(text, first);
    assert forall|key: Seq<char>| #[trigger] is_del(text, key) implies second == text.len() by {
        if second < text.len() {
            assert(key[second - 4] == ' ');
        }
    }
    assert forall|key: Seq<char>, value: Seq<char>| #[trigger]
        is_set(text, key, value) implies second < text.len() && key == text.subrange(4, second)
        && value == text.skip(second + 1) by {
        let at = 4 + key.len();
        assert(text[at as int] == ' ');
        if second < at {
            assert(key[second - 4] == text[second]);
        }
        assert(second == at);
        assert(key =~= text.subrange(4, second));
        assert(value =~= text.skip(second + 1));
    }
}

/// Reads one line. It is split at its first two spaces, after the white space at its ends is
/// removed.
pub fn parse(line: &str) -> (command: Command)
    ensures
        reads_as(trimmed(line@), command@),
{
    let text = trim(line);
    proof {
        reveal_strlit("set");
        reveal_strlit("del");
        reveal_strlit("dump");
        reveal_strlit("set ");
        reveal_strlit("del ");
        reveal_strlit(" ");
    }
    let len: usize = text.unicode_len();
    if len == 0 {
        return Command::Blank;
    }
    let first: usize = find_space(text, 0, len);
    let word = text.substring_char(0, first).to_owned();
    if first == len {
        assert(word@ =~= text@);
        proof {
            lemma_two_words(text@, first as int);
        }
        if word == "dump".to_owned() {
            return Command::Dump;
        }
        return Command::Unknown;
    }
    let second: usize = find_space(text, first + 1, len);
    let key = text.substring_char(first + 1, second).to_owned();
    if second == len {
        proof {
            lemma_two_words(text@, first as int);
            lemma_three_words(text@, first as int, second as int);
        }
        if word == "del".to_owned() {
            assert(word@.len() == 3);
            assert(forall|i: int| 0 <= i < 3 ==> #[trigger] text@[i] == word@[i]);
            assert(text@ =~= "del "@ + key@);
            return Command::Del { key };
        }
        return Command::Unknown;
    }
    proof {
        lemma_two_words(text@, first as int);
        lemma_three_words(text@, first as int, second as int);
    }
    if word == "set".to_owned() {
        assert(word@.len() == 3);
        assert(forall|i: int| 0 <= i < 3 ==> #[trigger] text@[i] == word@[i]);
        let value = text.substring_char(second + 1, len).to_owned();
        assert(text@ =~= "set "@ + key@ + " "@ + value@);
        return Command::Put { key, value };
    }
    Command::Unknown
}

/// A text reads as one command only.
pub proof fn commands_are_unambiguous(text: Seq<char>, a: CommandView, b: CommandView)
    requires
        reads_as(text, a),
        reads_as(text, b),
    ensures
        a == b,
{
    reveal_strlit("dump");
    reveal_strlit("set ");
    reveal_strlit("del ");
    reveal_strlit("set");
    reveal_strlit("del");
    let first = lemma_first_space(text, 0);
    lemma_two_words(text, first);
    if first < text.len() {
        let second = lemma_first_space(text, first + 1);
        lemma_three_words(text, first, second);
    }
    if a is Put && b is Del || a is Del && b is Put {
        assert(text.take(3)[0] == text[0]);
    }
}

/// There is a first space from `from` on, or the text ends before one comes.
proof fn lemma_first_space(text: Seq<char>, from: int) -> (at: int)
    requires
        0 <= from <= text.len(),
    ensures
        from <= at <= text.len(),
        at < text.len() ==> text[at] == ' ',
        forall|i: int| from <= i < at ==> text[i] != ' ',
    decreases text.len() - from,
{
    if from == text.len() || text[from] == ' ' {
        from
    } else {
        lemma_first_space(text, from + 1)
    }
}

/// How a command is typed. What is no command is typed in no particular way.
pub open spec fn typed(command: CommandView) -> Seq<char> {
    match command {
        CommandView::Put { key, value } => "set "@ + key + " "@ + value,
        CommandView::Del { key } => "del "@ + key,
        CommandView::Dump => "dump"@,
        CommandView::Blank => Seq::empty(),
        CommandView::Unknown => Seq::empty(),
    }
}

/// The command can be typed: it is one, and its key holds no space.
pub open spec fn typable(command: CommandView) -> bool {
    match command {
        CommandView::Put { key, value } => !key.contains(' '),
        CommandView::Del { key } => !key.contains(' '),
        CommandView::Dump => true,
        CommandView::Blank => true,
        CommandView::Unknown => false,
    }
}

/// Every character of the text is white space.
pub open spec fn all_white(text: Seq<char>) -> bool {
    forall|i: int| 0 <= i < text.len() ==> white(#[trigger] text[i])
}

/// Trimming takes off the white space around a text, all of it and nothing else.
pub proof fn trimming_takes_off_the_ends(before: Seq<char>, text: Seq<char>, after: Seq<char>)
    requires
        all_white(before),
        all_white(after),
        text.len() == 0 || (!white(text.first()) && !white(text.last())),
    ensures
        trimmed(before + text + after) == text,
    decreases before.len() + after.len(),
{
    let whole = before + text + after;
    if before.len() > 0 {
        assert(whole.first() == before[0]);
        assert(whole.drop_first() =~= before.drop_first() + text + after);
        trimming_takes_off_the_ends(before.drop_first(), text, after);
    } else if after.len() > 0 {
        if text.len() == 0 {
            assert(whole.first() == after[0]);
            assert(whole.drop_first() =~= before + text + after.drop_first());
            trimming_takes_off_the_ends(before, text, after.drop_first());
        } else {
            assert(whole.first() == text.first());
            assert(whole.last() == after[after.len() - 1]);
            assert(whole.drop_last() =~= before + text + after.drop_last());
            trimming_takes_off_the_ends(before, text, after.drop_last());
        }
    } else {
        assert(whole =~= text);
    }
}

/// A typed command is read back, with any white space around it, and as nothing else. It must not
/// end in white space itself, which would be taken off.
pub proof fn commands_read_back(
    before: Seq<char>,
    command: CommandView,
    after: Seq<char>,
    read: CommandView,
)
    requires
        typable(command),
        typed(command).len() == 0 || !white(typed(command).last()),
        all_white(before),
        all_white(after),
        reads_as(trimmed(before + typed(command) + after), read),
    ensures
        read == command,
{
    reveal_strlit("set ");
    reveal_strlit("del ");
    reveal_strlit("dump");
    reveal_strlit(" ");
    let text = typed(command);
    if text.len() > 0 {
        assert(text.first() == 's' || text.first() == 'd');
    }
    trimming_takes_off_the_ends(before, text, after);
    assert(reads_as(text, command));
    commands_are_unambiguous(text, command, read);
}

/// Nothing is read as a command but what is typed like it; and what is typed like none is not read
/// as any.
pub proof fn only_commands_are_read(text: Seq<char>, read: CommandView)
    requires
        reads_as(text, read),
    ensures
        !(read is Unknown) ==> typable(read) && text == typed(read),
        read is Unknown ==> forall|command: CommandView| #[trigger]
            typable(command) ==> text != typed(command),
{
    if read is Unknown {
        assert forall|command: CommandView| #[trigger] typable(command) implies text != typed(
            command,
        ) by {
            match command {
                CommandView::Put { key, value } => {
                    assert(!is_set(text, key, value));
                },
                CommandView::Del { key } => {
                    assert(!is_del(text, key));
                },
                _ => {},
            }
        }
    } else {
        assert(text =~= typed(read));
    }
}

} // verus!
