//! Process metrics from `/proc`: what the kernel's text says, and what a sample comes to.

use vstd::prelude::*;

verus! {

// --- Text ---

/// The Unicode property `White_Space`.
pub open spec fn white_space(c: char) -> bool {
    ||| 0x9 <= c as u32 <= 0xd
    ||| c as u32 == 0x20
    ||| c as u32 == 0x85
    ||| c as u32 == 0xa0
    ||| c as u32 == 0x1680
    ||| 0x2000 <= c as u32 <= 0x200a
    ||| c as u32 == 0x2028
    ||| c as u32 == 0x2029
    ||| c as u32 == 0x202f
    ||| c as u32 == 0x205f
    ||| c as u32 == 0x3000
}

/// How many characters there are before the first white space.
pub open spec fn word_len(text: Seq<char>) -> nat
    decreases text.len(),
{
    if text.len() == 0 || white_space(text[0]) {
        0
    } else {
        1 + word_len(text.skip(1))
    }
}

/// A word ends within its text, and one that begins has a character.
pub proof fn lemma_word_len(text: Seq<char>)
    ensures
        word_len(text) <= text.len(),
        text.len() > 0 && !white_space(text[0]) ==> word_len(text) > 0,
    decreases text.len(),
{
    if text.len() > 0 {
        lemma_word_len(text.skip(1));
    }
}

/// The words of a text: what white space separates.
pub open spec fn words(text: Seq<char>) -> Seq<Seq<char>>
    decreases text.len(),
{
    if text.len() == 0 {
        Seq::empty()
    } else if white_space(text[0]) {
        words(text.skip(1))
    } else {
        proof {
            lemma_word_len(text);
        }
        seq![text.take(word_len(text) as int)] + words(text.skip(word_len(text) as int))
    }
}

/// What follows the last `)`; nothing where there is none.
pub open spec fn after_comm(text: Seq<char>) -> Option<Seq<char>>
    decreases text.len(),
{
    if text.len() == 0 {
        None
    } else if text.last() == ')' {
        Some(Seq::empty())
    } else {
        match after_comm(text.drop_last()) {
            Some(tail) => Some(tail.push(text.last())),
            None => None,
        }
    }
}

/// Whether every character is a decimal digit.
pub open spec fn all_digits(text: Seq<char>) -> bool {
    forall|i: int| 0 <= i < text.len() ==> '0' <= #[trigger] text[i] <= '9'
}

/// The number that decimal digits stand for.
pub open spec fn decimal(text: Seq<char>) -> nat
    decreases text.len(),
{
    if text.len() == 0 {
        0
    } else {
        10 * decimal(text.drop_last()) + (text.last() as u32 - '0' as u32) as nat
    }
}

/// The digits of a number: what follows an optional plus sign.
pub open spec fn digits_of(text: Seq<char>) -> Seq<char> {
    if text.len() > 0 && text[0] == '+' {
        text.skip(1)
    } else {
        text
    }
}

/// The number that a word stands for: an optional plus sign and digits, within sixty-four bits.
pub open spec fn unsigned_of(text: Seq<char>) -> Option<u64> {
    let digits = digits_of(text);
    if digits.len() > 0 && all_digits(digits) && decimal(digits) <= u64::MAX {
        Some(decimal(digits) as u64)
    } else {
        None
    }
}

/// The number in a word of a text.
pub open spec fn number_at(text: Seq<char>, n: int) -> Option<u64> {
    if 0 <= n < words(text).len() {
        unsigned_of(words(text)[n])
    } else {
        None
    }
}

/// The characters of a text.
fn characters(text: &str) -> (chars: Vec<char>)
    ensures
        chars@ == text@,
{
    let mut chars: Vec<char> = Vec::new();
    for c in it: text.chars()
        invariant
            chars@ == it.seq().take(it.index() as int),
            it.seq() == text@,
    {
        chars.push(c);
        assert(chars@ =~= it.seq().take(it.index() + 1));
    }
    assert(chars@ =~= text@);
    chars
}

/// Whether a character is white space.
fn is_white_space(c: char) -> (result: bool)
    ensures
        result == white_space(c),
{
    let n: u32 = c as u32;
    (0x9 <= n && n <= 0xd) || n == 0x20 || n == 0x85 || n == 0xa0 || n == 0x1680 || (0x2000 <= n
        && n <= 0x200a) || n == 0x2028 || n == 0x2029 || n == 0x202f || n == 0x205f || n == 0x3000
}

/// Where the word that begins at `from` ends.
fn word_end(chars: &Vec<char>, from: usize) -> (end: usize)
    requires
        from <= chars@.len(),
    ensures
        from <= end <= chars@.len(),
        end - from == word_len(chars@.skip(from as int)),
{
    let ghost text = chars@;
    let mut end: usize = from;
    while end < chars.len() && !is_white_space(chars[end])
        invariant
            from <= end <= chars@.len(),
            text == chars@,
            word_len(text.skip(from as int)) == (end - from) + word_len(text.skip(end as int)),
        decreases chars@.len() - end,
    {
        assert(text.skip(end as int).skip(1) =~= text.skip(end + 1));
        end = end + 1;
    }
    end
}

/// Find the word with the number, counted from zero, in what follows `from`.
fn find_word(chars: &Vec<char>, from: usize, number: usize) -> (found: Option<(usize, usize)>)
    requires
        from <= chars@.len(),
    ensures
        found is Some <==> number < words(chars@.skip(from as int)).len(),
        found matches Some((start, end)) ==> start <= end <= chars@.len() && chars@.subrange(
            start as int,
            end as int,
        ) == words(chars@.skip(from as int))[number as int],
{
    let ghost text = chars@;
    let ghost all = words(text.skip(from as int));
    let mut at: usize = from;
    let mut seen: usize = 0;
    assert(all.skip(0) =~= all);
    while at < chars.len()
        invariant
            from <= at <= chars@.len(),
            text == chars@,
            all == words(text.skip(from as int)),
            seen <= number,
            seen <= all.len(),
            all.skip(seen as int) == words(text.skip(at as int)),
        decreases chars@.len() - at,
    {
        let ghost rest = text.skip(at as int);
        if is_white_space(chars[at]) {
            assert(rest.skip(1) =~= text.skip(at + 1));
            at = at + 1;
        } else {
            let end: usize = word_end(chars, at);
            proof {
                lemma_word_len(rest);
                assert(rest.skip(word_len(rest) as int) =~= text.skip(end as int));
                assert(rest.take(word_len(rest) as int) =~= text.subrange(at as int, end as int));
                assert(all.skip(seen as int)[0] == text.subrange(at as int, end as int));
                assert(all.skip(seen as int).skip(1) =~= words(text.skip(end as int)));
                assert(all.skip(seen + 1) =~= all.skip(seen as int).skip(1));
                assert(all[seen as int] == all.skip(seen as int)[0]);
            }
            if seen == number {
                return Some((at, end));
            }
            seen = seen + 1;
            at = end;
        }
    }
    assert(all.skip(seen as int).len() == 0);
    None
}

proof fn lemma_decimal_grows(text: Seq<char>, upto: int)
    requires
        0 <= upto <= text.len(),
        all_digits(text),
    ensures
        decimal(text.take(upto)) <= decimal(text),
    decreases text.len() - upto,
{
    if upto < text.len() {
        lemma_decimal_grows(text, upto + 1);
        assert(text.take(upto + 1).drop_last() =~= text.take(upto));
        assert('0' <= text[upto] <= '9');
    } else {
        assert(text.take(upto) =~= text);
    }
}

/// Read the number in a stretch of characters.
fn parse_unsigned(chars: &Vec<char>, start: usize, end: usize) -> (number: Option<u64>)
    requires
        start <= end <= chars@.len(),
    ensures
        number == unsigned_of(chars@.subrange(start as int, end as int)),
{
    let ghost text = chars@.subrange(start as int, end as int);
    let from: usize = if start < end && chars[start] == '+' {
        start + 1
    } else {
        start
    };
    let ghost digits = digits_of(text);
    assert(digits =~= chars@.subrange(from as int, end as int));
    if from == end {
        return None;
    }
    let mut value: u64 = 0;
    let mut at: usize = from;
    assert(digits.take(0) =~= Seq::<char>::empty());
    while at < end
        invariant
            from <= at <= end <= chars@.len(),
            text == chars@.subrange(start as int, end as int),
            digits == digits_of(text),
            digits == chars@.subrange(from as int, end as int),
            digits.len() > 0,
            all_digits(digits.take(at - from)),
            value == decimal(digits.take(at - from)),
        decreases end - at,
    {
        let c: char = chars[at];
        let ghost upto = digits.take(at - from + 1);
        proof {
            assert(upto.drop_last() =~= digits.take(at - from));
            assert(upto.last() == c);
            assert(digits[at - from] == c);
        }
        if c < '0' || c > '9' {
            return None;
        }
        let digit: u64 = (c as u32 - '0' as u32) as u64;
        proof {
            assert(all_digits(upto)) by {
                assert forall|i: int| 0 <= i < upto.len() implies '0' <= #[trigger] upto[i]
                    <= '9' by {
                    if i < at - from {
                        assert(upto[i] == digits.take(at - from)[i]);
                    }
                }
            }
            assert(decimal(upto) == 10 * decimal(digits.take(at - from)) + digit);
            if all_digits(digits) {
                lemma_decimal_grows(digits, at - from + 1);
            }
        }
        if value > (u64::MAX - digit) / 10 {
            assert(decimal(upto) > u64::MAX);
            return None;
        }
        value = value * 10 + digit;
        at = at + 1;
    }
    assert(digits.take(at - from) =~= digits);
    Some(value)
}

/// Read the number in a word of what follows `from`.
fn parse_word(chars: &Vec<char>, from: usize, number: usize) -> (value: Option<u64>)
    requires
        from <= chars@.len(),
    ensures
        value == number_at(chars@.skip(from as int), number as int),
{
    match find_word(chars, from, number) {
        Some((start, end)) => parse_unsigned(chars, start, end),
        None => None,
    }
}

/// Where what follows the last `)` begins.
fn comm_end(chars: &Vec<char>) -> (at: Option<usize>)
    ensures
        at is Some <==> after_comm(chars@) is Some,
        at matches Some(from) ==> from <= chars@.len() && after_comm(chars@) == Some(
            chars@.skip(from as int),
        ),
{
    let ghost text = chars@;
    let mut at: usize = chars.len();
    assert(text.take(at as int) =~= text);
    while at > 0
        invariant
            at <= chars@.len(),
            text == chars@,
            after_comm(text) == (match after_comm(text.take(at as int)) {
                Some(tail) => Some(tail + text.skip(at as int)),
                None => None::<Seq<char>>,
            }),
        decreases at,
    {
        let ghost head = text.take(at as int);
        assert(head.drop_last() =~= text.take(at - 1));
        if chars[at - 1] == ')' {
            assert(after_comm(head) == Some(Seq::<char>::empty()));
            assert(Seq::<char>::empty() + text.skip(at as int) =~= text.skip(at as int));
            return Some(at);
        }
        proof {
            if let Some(tail) = after_comm(text.take(at - 1)) {
                assert(tail.push(head.last()) + text.skip(at as int) =~= tail + text.skip(at - 1));
            }
        }
        at = at - 1;
    }
    None
}

/// What follows the last `)` does not depend on what stands before it.
proof fn lemma_after_comm(head: Seq<char>, tail: Seq<char>)
    requires
        !tail.contains(')'),
    ensures
        after_comm(head.push(')') + tail) == Some(tail),
    decreases tail.len(),
{
    let text = head.push(')') + tail;
    if tail.len() == 0 {
        assert(text.last() == ')');
        assert(tail =~= Seq::empty());
    } else {
        let rest = tail.drop_last();
        assert(!rest.contains(')')) by {
            if rest.contains(')') {
                let i = choose|i: int| 0 <= i < rest.len() && rest[i] == ')';
                assert(tail[i] == ')');
            }
        }
        assert(text.last() == tail.last());
        assert(tail.contains(tail.last()));
        assert(text.drop_last() =~= head.push(')') + rest);
        lemma_after_comm(head, rest);
        assert(rest.push(tail.last()) =~= tail);
    }
}

// --- Samples ---

/// What `/proc/self/stat` says of the processor time: the user and the system ticks, fields 14 and
/// 15. The command name before them is in parentheses and may hold anything.
pub open spec fn cpu_ticks(stat: Seq<char>) -> Option<(u64, u64)> {
    match after_comm(stat) {
        Some(fields) => match (number_at(fields, 11), number_at(fields, 12)) {
            (Some(utime), Some(stime)) => Some((utime, stime)),
            _ => None,
        },
        None => None,
    }
}

/// The command name does not matter, whatever it holds: spaces, numbers or parentheses.
pub proof fn law_command_name_ignored(a: Seq<char>, b: Seq<char>, fields: Seq<char>)
    requires
        !fields.contains(')'),
    ensures
        cpu_ticks(a.push(')') + fields) == cpu_ticks(b.push(')') + fields),
{
    lemma_after_comm(a, fields);
    lemma_after_comm(b, fields);
}

/// A word holds no white space and is not empty.
pub proof fn law_words(text: Seq<char>, n: int)
    requires
        0 <= n < words(text).len(),
    ensures
        words(text)[n].len() > 0,
        forall|i: int| 0 <= i < words(text)[n].len() ==> !white_space(#[trigger] words(text)[n][i]),
    decreases text.len(),
{
    if white_space(text[0]) {
        law_words(text.skip(1), n);
    } else {
        lemma_word_len(text);
        if n > 0 {
            law_words(text.skip(word_len(text) as int), n - 1);
        } else {
            lemma_word_solid(text);
        }
    }
}

proof fn lemma_word_solid(text: Seq<char>)
    ensures
        word_len(text) <= text.len(),
        forall|i: int| 0 <= i < word_len(text) ==> !white_space(#[trigger] text[i]),
    decreases text.len(),
{
    if text.len() > 0 && !white_space(text[0]) {
        lemma_word_solid(text.skip(1));
        assert forall|i: int| 0 <= i < word_len(text) implies !white_space(
            #[trigger] text[i],
        ) by {
            if i > 0 {
                assert(text[i] == text.skip(1)[i - 1]);
            }
        }
    }
}

/// Read utime (field 14) and stime (field 15) from the text of `/proc/self/stat`.
pub fn parse_cpu_ticks(stat: &str) -> (ticks: Option<(u64, u64)>)
    ensures
        ticks == cpu_ticks(stat@),
{
    let chars = characters(stat);
    match comm_end(&chars) {
        Some(from) => {
            match parse_word(&chars, from, 11) {
                Some(utime) => match parse_word(&chars, from, 12) {
                    Some(stime) => Some((utime, stime)),
                    None => None,
                },
                None => None,
            }
        },
        None => None,
    }
}

/// Read RSS in pages (field 2) from the text of `/proc/self/statm`.
pub fn parse_rss_pages(statm: &str) -> (pages: Option<u64>)
    ensures
        pages == number_at(statm@, 1),
{
    let chars = characters(statm);
    let pages = parse_word(&chars, 0, 1);
    assert(chars@.skip(0) =~= chars@);
    pages
}

/// The processor time since the sample before.
#[derive(Clone, Copy, Debug, Default)]
pub struct CpuTracker {
    previous: Option<u64>,
}

impl CpuTracker {
    /// The ticks of the sample before, if there was one.
    pub closed spec fn previous(&self) -> Option<u64> {
        self.previous
    }

    /// A tracker that has seen no sample.
    pub fn new() -> (tracker: CpuTracker)
        ensures
            tracker.previous() is None,
    {
        CpuTracker { previous: None }
    }

    /// Take a sample: the ticks since the one before, zero where the clock went back. The first
    /// sample is a baseline.
    pub fn sample(&mut self, utime: u64, stime: u64) -> (delta: Option<u64>)
        requires
            utime + stime <= u64::MAX,
        ensures
            final(self).previous() == Some((utime + stime) as u64),
            delta == (match old(self).previous() {
                Some(previous) => Some(
                    if utime + stime >= previous {
                        (utime + stime - previous) as u64
                    } else {
                        0
                    },
                ),
                None => None,
            }),
    {
        let total: u64 = utime + stime;
        let delta = match self.previous {
            Some(previous) => Some(total.saturating_sub(previous)),
            None => None,
        };
        self.previous = Some(total);
        delta
    }
}

/// The resident memory in bytes.
pub fn rss_bytes(pages: u64, page_size: u64) -> (bytes: u64)
    requires
        pages * page_size <= u64::MAX,
    ensures
        bytes == pages * page_size,
{
    pages * page_size
}

/// What starting the process metrics does.
#[derive(Clone, Copy, Debug, PartialEq, Eq)]
pub enum Start {
    /// Poll `/proc`.
    Poll,
    /// Nothing: there is no `/proc` to poll.
    Disabled,
}

/// Decide whether to poll. Only Linux has what is polled; elsewhere this is a no-op.
pub fn start(linux: bool) -> (start: Start)
    ensures
        start == if linux {
            Start::Poll
        } else {
            Start::Disabled
        },
{
    if linux {
        Start::Poll
    } else {
        Start::Disabled
    }
}

// --- Laws ---

/// A word: at least one character, and no white space.
pub open spec fn solid(word: Seq<char>) -> bool {
    word.len() > 0 && forall|i: int| 0 <= i < word.len() ==> !white_space(#[trigger] word[i])
}

/// A text made of words, a space before each.
pub open spec fn spaced(list: Seq<Seq<char>>) -> Seq<char>
    decreases list.len(),
{
    if list.len() == 0 {
        Seq::empty()
    } else {
        seq![' '] + list[0] + spaced(list.skip(1))
    }
}

proof fn lemma_word_len_spaced(word: Seq<char>, rest: Seq<char>)
    requires
        forall|i: int| 0 <= i < word.len() ==> !white_space(#[trigger] word[i]),
        rest.len() == 0 || white_space(rest[0]),
    ensures
        word_len(word + rest) == word.len(),
    decreases word.len(),
{
    if word.len() == 0 {
        assert(word + rest =~= rest);
    } else {
        let tail = word.skip(1);
        assert forall|i: int| 0 <= i < tail.len() implies !white_space(#[trigger] tail[i]) by {
            assert(tail[i] == word[i + 1]);
        }
        lemma_word_len_spaced(tail, rest);
        assert((word + rest).skip(1) =~= tail + rest);
        assert(!white_space((word + rest)[0])) by {
            assert((word + rest)[0] == word[0]);
        }
    }
}

/// The words of a text are the ones it is made of, in order.
pub proof fn law_words_of_spaced(list: Seq<Seq<char>>)
    requires
        forall|i: int| 0 <= i < list.len() ==> solid(#[trigger] list[i]),
    ensures
        words(spaced(list)) == list,
    decreases list.len(),
{
    if list.len() > 0 {
        let tail = list.skip(1);
        let first = list[0];
        let rest = spaced(tail);
        let text = first + rest;
        assert forall|i: int| 0 <= i < tail.len() implies solid(#[trigger] tail[i]) by {
            assert(tail[i] == list[i + 1]);
        }
        law_words_of_spaced(tail);
        assert(solid(list[0]));
        assert(white_space(' '));
        assert(spaced(list).skip(1) =~= text);
        assert(spaced(list)[0] == ' ');
        assert(rest.len() > 0 ==> rest[0] == ' ');
        lemma_word_len_spaced(first, rest);
        assert(text[0] == first[0] && !white_space(first[0]));
        assert(text.take(first.len() as int) =~= first);
        assert(text.skip(first.len() as int) =~= rest);
        assert(words(text) == seq![first] + words(rest));
        assert(seq![first] + tail =~= list);
    } else {
        assert(words(spaced(list)) =~= list);
    }
}

/// The processor time is in the twelfth and the thirteenth word behind the command name, the
/// fourteenth and fifteenth of the line: the user's first, then the system's. There is one exactly
/// if both are numbers.
pub proof fn law_cpu_ticks_fields(head: Seq<char>, list: Seq<Seq<char>>)
    requires
        forall|i: int| 0 <= i < list.len() ==> solid(#[trigger] list[i]),
        !spaced(list).contains(')'),
    ensures
        list.len() >= 13 && unsigned_of(list[11]) is Some && unsigned_of(list[12]) is Some
            ==> cpu_ticks(head.push(')') + spaced(list)) == Some(
            (unsigned_of(list[11])->0, unsigned_of(list[12])->0),
        ),
        list.len() < 13 || unsigned_of(list[11]) is None || unsigned_of(list[12]) is None
            ==> cpu_ticks(head.push(')') + spaced(list)) is None,
{
    lemma_after_comm(head, spaced(list));
    law_words_of_spaced(list);
}

/// A line without a closing parenthesis says nothing of the processor time.
pub proof fn law_no_command_name(stat: Seq<char>)
    requires
        !stat.contains(')'),
    ensures
        cpu_ticks(stat) is None,
{
    lemma_no_command_name(stat);
}

proof fn lemma_no_command_name(stat: Seq<char>)
    requires
        !stat.contains(')'),
    ensures
        after_comm(stat) is None,
    decreases stat.len(),
{
    if stat.len() > 0 {
        let shorter = stat.drop_last();
        if shorter.contains(')') {
            let i = choose|i: int| 0 <= i < shorter.len() && shorter[i] == ')';
            assert(stat[i] == ')');
        }
        assert(stat[stat.len() - 1] == stat.last());
        lemma_no_command_name(shorter);
    }
}

/// The resident memory is in the second word of its line.
pub proof fn law_rss_field(list: Seq<Seq<char>>)
    requires
        forall|i: int| 0 <= i < list.len() ==> solid(#[trigger] list[i]),
    ensures
        list.len() >= 2 ==> number_at(spaced(list), 1) == unsigned_of(list[1]),
        list.len() < 2 ==> number_at(spaced(list), 1) is None,
{
    law_words_of_spaced(list);
}

/// A number is read digit by digit, the highest first: one more digit behind it makes it ten times
/// as large and adds the digit.
pub proof fn law_decimal(text: Seq<char>, digit: char)
    requires
        '0' <= digit <= '9',
    ensures
        decimal(Seq::empty()) == 0,
        decimal(text.push(digit)) == 10 * decimal(text) + (digit as u32 - 0x30),
{
    assert(text.push(digit).drop_last() =~= text);
}

/// A word is a number exactly if it is digits, at least one, behind a plus sign or not, and what
/// they stand for fits; it is then that number.
pub proof fn law_unsigned(text: Seq<char>)
    ensures
        text.len() > 0 && text[0] == '+' ==> (unsigned_of(text) is Some <==> text.len() > 1 && (
        forall|i: int| 1 <= i < text.len() ==> '0' <= #[trigger] text[i] <= '9') && decimal(
            text.skip(1),
        ) <= u64::MAX),
        text.len() > 0 && text[0] != '+' ==> (unsigned_of(text) is Some <==> (forall|i: int|
            0 <= i < text.len() ==> '0' <= #[trigger] text[i] <= '9') && decimal(text) <= u64::MAX),
        text.len() == 0 ==> unsigned_of(text) is None,
        unsigned_of(text) matches Some(n) ==> n == if text[0] == '+' {
            decimal(text.skip(1))
        } else {
            decimal(text)
        },
{
    if text.len() > 0 && text[0] == '+' {
        let digits = text.skip(1);
        if all_digits(digits) {
            assert forall|i: int| 1 <= i < text.len() implies '0' <= #[trigger] text[i] <= '9' by {
                assert(digits[i - 1] == text[i]);
            }
        } else if forall|i: int| 1 <= i < text.len() ==> '0' <= #[trigger] text[i] <= '9' {
            assert forall|i: int| 0 <= i < digits.len() implies '0' <= #[trigger] digits[i]
                <= '9' by {
                assert(digits[i] == text[i + 1]);
            }
        }
    }
}

} // verus!
