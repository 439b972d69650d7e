//! What texts are read as, and how numbers, paths and values are written.
use crate::cli::u32_of;
use crate::path::{absolute, joined_path, stacked, with_slashes};
use crate::text::{
    dec, dec_signed, digit, digit_char, digits_value, find, i64_value, is_space, lemma_find,
    lemma_find_unique, lemma_word_len, lines, numeral, split, trim_end, trim_start, trimmed,
    unsigned_value, without_cr, word_len, words,
};
use crate::toml::{
    comment_from, quote_at, stripped, unescaped, value_read, QuoteState, Toml, ValueRead,
};
use vstd::prelude::*;

verus! {

// ---------------------------------------------------------------------------
// Numbers
// ---------------------------------------------------------------------------

/// The digits have their values, letters in either case, as far as the base goes.
pub proof fn digits_have_their_values(radix: nat)
    requires
        10 <= radix <= 16,
    ensures
        digit('0', radix) == Some(0nat),
        digit('1', radix) == Some(1nat),
        digit('2', radix) == Some(2nat),
        digit('3', radix) == Some(3nat),
        digit('4', radix) == Some(4nat),
        digit('5', radix) == Some(5nat),
        digit('6', radix) == Some(6nat),
        digit('7', radix) == Some(7nat),
        digit('8', radix) == Some(8nat),
        digit('9', radix) == Some(9nat),
        digit('a', radix) == digit('A', radix),
        digit('f', radix) == digit('F', radix),
        radix == 16 ==> digit('a', radix) == Some(10nat) && digit('b', radix) == Some(11nat)
            && digit('c', radix) == Some(12nat) && digit('d', radix) == Some(13nat) && digit(
            'e',
            radix,
        ) == Some(14nat) && digit('f', radix) == Some(15nat),
        radix == 10 ==> digit('a', radix) is None,
        digit('g', radix) is None,
        digit('-', radix) is None,
        digit('+', radix) is None,
        digit(' ', radix) is None,
{
}

/// A digit is read as what it was written for.
proof fn lemma_digit_reads_back(d: nat, radix: nat)
    requires
        d < radix <= 16,
    ensures
        digit(digit_char(d), radix) == Some(d),
        digit_char(d) != '+' && digit_char(d) != '-',
        d > 0 ==> digit_char(d) != '0',
        digit_char(d) != 'x' && digit_char(d) != 'X',
{
}

/// A number is written without leading zeros, and read as what was written.
pub proof fn written_number_is_read_back(n: nat, radix: nat)
    requires
        2 <= radix <= 16,
    ensures
        numeral(n, radix).len() > 0,
        digits_value(numeral(n, radix), radix) == Some(n),
        n > 0 ==> numeral(n, radix)[0] != '0',
        numeral(n, radix)[0] != '+' && numeral(n, radix)[0] != '-',
        forall|i: int|
            0 <= i < numeral(n, radix).len() ==> digit(#[trigger] numeral(n, radix)[i], radix)
                is Some,
    decreases n,
{
    if n < radix {
        lemma_digit_reads_back(n, radix);
        assert(numeral(n, radix) == seq![digit_char(n)]);
    } else {
        assert(0 < n / radix < n && (n / radix) * radix + n % radix == n) by (nonlinear_arith)
            requires
                n >= radix,
                radix >= 2,
        ;
        let front = numeral(n / radix, radix);
        let all = numeral(n, radix);
        written_number_is_read_back(n / radix, radix);
        lemma_digit_reads_back(n % radix, radix);
        assert(all == front.push(digit_char(n % radix)));
        assert(all.drop_last() =~= front);
        assert(all[0] == front[0]);
        assert forall|i: int| 0 <= i < all.len() implies digit(#[trigger] all[i], radix)
            is Some by {
            if i < front.len() {
                assert(all[i] == front[i]);
            }
        }
    }
}

/// Numbers within their limits are read as what was written, with a sign or without, and numbers
/// beyond them are refused.
pub proof fn numbers_are_read_within_limits(n: nat, max: nat, v: int)
    ensures
        n <= max ==> unsigned_value(dec(n), 10, max) == Some(n),
        n <= max ==> unsigned_value(seq!['+'] + dec(n), 10, max) == Some(n),
        n > max ==> unsigned_value(dec(n), 10, max) is None,
        unsigned_value(seq!['-'] + dec(n), 10, max) is None,
        i64::MIN <= v <= i64::MAX ==> i64_value(dec_signed(v)) == Some(v),
        v < i64::MIN || v > i64::MAX ==> i64_value(dec_signed(v)) is None,
{
    written_number_is_read_back(n, 10);
    let plus = seq!['+'] + dec(n);
    assert(plus.skip(1) =~= dec(n));
    let minus = seq!['-'] + dec(n);
    assert(minus[0] == '-');
    lemma_digits_all(minus, 10, 0);
    if v < 0 {
        written_number_is_read_back((-v) as nat, 10);
        let s = dec_signed(v);
        assert(s.skip(1) =~= dec((-v) as nat));
    } else {
        written_number_is_read_back(v as nat, 10);
    }
}

/// A text with a character that is no digit is no number.
proof fn lemma_digits_all(s: Seq<char>, radix: nat, i: int)
    requires
        0 <= i < s.len(),
    ensures
        digits_value(s, radix) is Some ==> digit(s[i], radix) is Some,
    decreases s.len(),
{
    if i < s.len() - 1 {
        lemma_digits_all(s.drop_last(), radix, i);
    }
}

/// A number of 32 bits is read in decimal, or in hexadecimal after a zero and an x.
pub proof fn hexadecimal_follows_its_mark(v: u32)
    ensures
        u32_of(dec(v as nat)) == Some(v as nat),
        u32_of(seq!['0', 'x'] + numeral(v as nat, 16)) == Some(v as nat),
        u32_of(seq!['0', 'X'] + numeral(v as nat, 16)) == Some(v as nat),
{
    written_number_is_read_back(v as nat, 10);
    written_number_is_read_back(v as nat, 16);
    let hex = numeral(v as nat, 16);
    let s = seq!['0', 'x'] + hex;
    assert(s.subrange(2, s.len() as int) =~= hex);
    let t = seq!['0', 'X'] + hex;
    assert(t.subrange(2, t.len() as int) =~= hex);
    if v > 0 {
        assert(dec(v as nat)[0] != '0');
    } else {
        assert(dec(0) == seq![digit_char(0)]);
        assert(dec(0).len() == 1);
    }
}

// ---------------------------------------------------------------------------
// Pieces
// ---------------------------------------------------------------------------

/// No character that is written is a space, and the usual spaces are.
pub proof fn spaces_are_not_written(c: char)
    ensures
        '!' <= c <= '~' ==> !is_space(c),
        is_space(' ') && is_space('\t') && is_space('\n') && is_space('\r'),
{
}

/// What is trimmed off a text is space at its start and at its end, and what is left neither starts
/// nor ends with space.
pub proof fn trimming_takes_off_space(s: Seq<char>)
    ensures
        exists|i: int, j: int|
            0 <= i <= j <= s.len() && trimmed(s) == #[trigger] s.subrange(i, j) && (forall|k: int|
                0 <= k < i || j <= k < s.len() ==> is_space(#[trigger] s[k])),
        trimmed(s).len() > 0 ==> !is_space(trimmed(s)[0]) && !is_space(trimmed(s).last()),
{
    lemma_trim_start(s);
    let a = trim_start(s);
    let i = s.len() - a.len();
    lemma_trim_end(a);
    let b = trim_end(a);
    let j = i + b.len();
    assert(s.subrange(i, j) =~= a.take(b.len() as int));
    assert forall|k: int| 0 <= k < i || j <= k < s.len() implies is_space(#[trigger] s[k]) by {
        if k >= j {
            assert(s[k] == a[k - i]);
        }
    }
    assert(trimmed(s) == s.subrange(i, j));
}

/// What is left after the space at the start.
proof fn lemma_trim_start(s: Seq<char>)
    ensures
        trim_start(s).len() <= s.len(),
        trim_start(s) == s.skip(s.len() - trim_start(s).len()),
        forall|k: int| 0 <= k < s.len() - trim_start(s).len() ==> is_space(#[trigger] s[k]),
        trim_start(s).len() > 0 ==> !is_space(trim_start(s)[0]),
    decreases s.len(),
{
    if s.len() > 0 && is_space(s[0]) {
        let rest = s.drop_first();
        lemma_trim_start(rest);
        let n = trim_start(s).len();
        assert(rest.skip(rest.len() - n) =~= s.skip(s.len() - n));
        assert forall|k: int| 0 <= k < s.len() - n implies is_space(#[trigger] s[k]) by {
            if k > 0 {
                assert(rest[k - 1] == s[k]);
            }
        }
    } else {
        assert(s.skip(0) =~= s);
    }
}

/// What is left before the space at the end.
proof fn lemma_trim_end(s: Seq<char>)
    ensures
        trim_end(s).len() <= s.len(),
        trim_end(s) == s.take(trim_end(s).len() as int),
        forall|k: int| trim_end(s).len() <= k < s.len() ==> is_space(#[trigger] s[k]),
        trim_end(s).len() > 0 ==> !is_space(trim_end(s).last()),
    decreases s.len(),
{
    if s.len() > 0 && is_space(s.last()) {
        let rest = s.drop_last();
        lemma_trim_end(rest);
        let n = trim_end(s).len();
        assert(rest.take(n as int) =~= s.take(n as int));
        assert forall|k: int| n <= k < s.len() implies is_space(#[trigger] s[k]) by {
            if k < rest.len() {
                assert(rest[k] == s[k]);
            }
        }
    } else {
        assert(s.take(s.len() as int) =~= s);
    }
}

/// The pieces of a text, put together again with what separates them.
pub open spec fn rejoined<T>(pieces: Seq<Seq<T>>, sep: T) -> Seq<T>
    decreases pieces.len(),
{
    if pieces.len() == 0 {
        Seq::empty()
    } else if pieces.len() == 1 {
        pieces[0]
    } else {
        pieces[0] + seq![sep] + rejoined(pieces.skip(1), sep)
    }
}

/// Splitting takes out what separates, and nothing else: put together again, the pieces are the
/// text, and none of them holds what separates.
pub proof fn pieces_make_up_the_whole<T>(s: Seq<T>, sep: T)
    ensures
        split(s, sep).len() > 0,
        rejoined(split(s, sep), sep) == s,
        forall|i: int| 0 <= i < split(s, sep).len() ==> !(#[trigger] split(s, sep)[i]).contains(sep),
    decreases s.len(),
{
    let k = find(s, sep);
    let pieces = split(s, sep);
    lemma_find(s, sep);
    if k < s.len() {
        let rest = s.skip(k + 1);
        pieces_make_up_the_whole(rest, sep);
        assert(pieces == seq![s.take(k)] + split(rest, sep));
        assert(pieces.skip(1) =~= split(rest, sep));
        assert(s =~= s.take(k) + seq![sep] + rest);
        assert forall|i: int| 0 <= i < pieces.len() implies !(#[trigger] pieces[i]).contains(
            sep,
        ) by {
            if i > 0 {
                assert(pieces[i] == split(rest, sep)[i - 1]);
            }
        }
    }
}

/// A text is read line by line: the first line is what stands before the first line feed, without
/// a carriage return at its end, and the others are the lines of what follows. The last line needs
/// no line feed.
pub proof fn lines_end_at_line_feeds(first: Seq<char>, rest: Seq<char>)
    requires
        !first.contains('\n'),
    ensures
        lines(first + seq!['\n'] + rest) == seq![without_cr(first)] + lines(rest),
        first.len() > 0 ==> lines(first) == seq![first],
        lines(Seq::empty()).len() == 0,
        without_cr(first + seq!['\r']) == first,
        (first.len() > 0 && first.last() != '\r') ==> without_cr(first) == first,
{
    let s = first + seq!['\n'] + rest;
    let k = first.len() as int;
    assert(s[k] == '\n');
    assert forall|i: int| 0 <= i < k implies s[i] != '\n' by {
        assert(s[i] == first[i]);
        assert(first.contains(first[i]));
    }
    lemma_find_unique(s, '\n', k);
    assert(s.take(k) =~= first);
    assert(s.skip(k + 1) =~= rest);
    assert forall|i: int| 0 <= i < k implies first[i] != '\n' by {
        assert(first.contains(first[i]));
    }
    lemma_find_unique(first, '\n', k);
    assert((first + seq!['\r']).drop_last() =~= first);
}

/// Whether a text is not empty and holds no space.
pub open spec fn is_bare(word: Seq<char>) -> bool {
    word.len() > 0 && forall|i: int| 0 <= i < word.len() ==> !is_space(#[trigger] word[i])
}

/// The words of a text are not empty and hold no space; space before a word is left out.
pub proof fn words_hold_no_space(s: Seq<char>)
    ensures
        forall|i: int| 0 <= i < words(s).len() ==> is_bare(#[trigger] words(s)[i]),
    decreases s.len(),
{
    if s.len() > 0 {
        if is_space(s[0]) {
            words_hold_no_space(s.drop_first());
            assert(words(s) == words(s.drop_first()));
        } else {
            lemma_word_len(s);
            let rest = s.skip(word_len(s));
            words_hold_no_space(rest);
            assert(words(s) == seq![s.take(word_len(s))] + words(rest));
            assert forall|i: int| 0 <= i < words(s).len() implies is_bare(
                #[trigger] words(s)[i],
            ) by {
                if i > 0 {
                    assert(words(s)[i] == words(rest)[i - 1]);
                }
            }
        }
    }
}

/// A word, a space and more are the word and the words of what follows.
pub proof fn words_are_apart_by_space(word: Seq<char>, c: char, rest: Seq<char>)
    requires
        is_bare(word),
        is_space(c),
    ensures
        words(word + seq![c] + rest) == seq![word] + words(rest),
        words(word) == seq![word],
        words(seq![c] + rest) == words(rest),
        words(Seq::empty()).len() == 0,
{
    let s = word + seq![c] + rest;
    lemma_word_of(word, seq![c] + rest);
    assert(s =~= word + (seq![c] + rest));
    assert(s.take(word.len() as int) =~= word);
    assert(s.skip(word.len() as int) =~= seq![c] + rest);
    assert((seq![c] + rest).drop_first() =~= rest);
    lemma_word_of(word, Seq::empty());
    assert(word + Seq::<char>::empty() =~= word);
    assert(word.take(word.len() as int) =~= word);
    assert(word.skip(word.len() as int) =~= Seq::<char>::empty());
    assert(s[0] == word[0]);
    assert(words(s) == seq![s.take(word_len(s))] + words(s.skip(word_len(s))));
    assert(words(Seq::<char>::empty()) =~= Seq::<Seq<char>>::empty());
    assert(words(word) == seq![word.take(word_len(word))] + words(word.skip(word_len(word))));
    assert(words(word) =~= seq![word]);
}

/// How long the first word is.
proof fn lemma_word_of(word: Seq<char>, rest: Seq<char>)
    requires
        forall|i: int| 0 <= i < word.len() ==> !is_space(#[trigger] word[i]),
        rest.len() > 0 ==> is_space(rest[0]),
    ensures
        word_len(word + rest) == word.len(),
    decreases word.len(),
{
    let s = word + rest;
    if word.len() > 0 {
        let less = word.drop_first();
        assert forall|i: int| 0 <= i < less.len() implies !is_space(#[trigger] less[i]) by {
            assert(less[i] == word[i + 1]);
        }
        lemma_word_of(less, rest);
        assert(s.drop_first() =~= less + rest);
        assert(s[0] == word[0]);
    } else {
        assert(s =~= rest);
    }
}

// ---------------------------------------------------------------------------
// Paths
// ---------------------------------------------------------------------------

/// A path that starts with a slash stands for itself wherever it is used; any other is appended to
/// the directory, with one slash between them where there is none yet.
pub proof fn paths_are_joined_with_a_slash(base: Seq<u8>, path: Seq<u8>)
    ensures
        absolute(path) <==> path.len() > 0 && path[0] == 47,
        absolute(path) ==> joined_path(base, path) == path,
        base.len() == 0 ==> joined_path(base, path) == path,
        !absolute(path) && base.len() > 0 && base.last() == 47 ==> joined_path(base, path) == base
            + path,
        !absolute(path) && base.len() > 0 && base.last() != 47 ==> joined_path(base, path) == base
            + seq![47u8] + path,
{
    if !absolute(path) && base.len() > 0 && base.last() != 47 {
        assert(base.push(47) + path =~= base + seq![47u8] + path);
    }
}

/// One more part of a path: nothing and a dot stay where they are, two dots go up unless there is
/// nothing above, and a name goes down.
pub proof fn parts_of_a_path_go_up_and_down(parts: Seq<Seq<u8>>, part: Seq<u8>)
    ensures
        stacked(Seq::empty()).len() == 0,
        part.len() == 0 || part == seq![46u8] ==> stacked(parts.push(part)) == stacked(parts),
        part == seq![46u8, 46] && stacked(parts).len() > 0 ==> stacked(parts.push(part)) == stacked(
            parts,
        ).drop_last(),
        part == seq![46u8, 46] && stacked(parts).len() == 0 ==> stacked(parts.push(part)).len()
            == 0,
        part.len() > 0 && part != seq![46u8] && part != seq![46u8, 46] ==> stacked(parts.push(part))
            == stacked(parts).push(part),
{
    assert(parts.push(part).drop_last() =~= parts);
    assert(seq![46u8, 46].len() == 2);
    assert(seq![46u8].len() == 1);
}

/// The names of a path are put together with a slash between each two.
pub proof fn names_are_put_together(parts: Seq<Seq<u8>>, part: Seq<u8>)
    ensures
        with_slashes(Seq::empty()).len() == 0,
        with_slashes(seq![part]) == part,
        parts.len() > 0 ==> with_slashes(parts.push(part)) == with_slashes(parts) + seq![47u8]
            + part,
{
    assert(parts.push(part).drop_last() =~= parts);
    if parts.len() > 0 {
        assert(with_slashes(parts).push(47) + part =~= with_slashes(parts) + seq![47u8] + part);
    }
}

// ---------------------------------------------------------------------------
// Values of a file
// ---------------------------------------------------------------------------

/// In a text in quotes, n and t after a backslash are a line feed and a tab, a backslash and either
/// quote are themselves, and before any other character the backslash stays; without a backslash
/// nothing changes.
pub proof fn escapes_are_undone(c: char, rest: Seq<char>)
    ensures
        unescaped(Seq::empty()).len() == 0,
        c != '\\' ==> unescaped(seq![c] + rest) == seq![c] + unescaped(rest),
        unescaped(seq!['\\', 'n'] + rest) == seq!['\n'] + unescaped(rest),
        unescaped(seq!['\\', 't'] + rest) == seq!['\t'] + unescaped(rest),
        unescaped(seq!['\\', '\\'] + rest) == seq!['\\'] + unescaped(rest),
        unescaped(seq!['\\', '"'] + rest) == seq!['"'] + unescaped(rest),
        unescaped(seq!['\\', '\''] + rest) == seq!['\''] + unescaped(rest),
        c != 'n' && c != 't' && c != '\\' && c != '"' && c != '\'' ==> unescaped(
            seq!['\\', c] + rest,
        ) == seq!['\\', c] + unescaped(rest),
        unescaped(seq!['\\']) == seq!['\\'],
{
    assert((seq![c] + rest).skip(1) =~= rest);
    assert((seq!['\\', 'n'] + rest).skip(2) =~= rest);
    assert((seq!['\\', 't'] + rest).skip(2) =~= rest);
    assert((seq!['\\', '\\'] + rest).skip(2) =~= rest);
    assert((seq!['\\', '"'] + rest).skip(2) =~= rest);
    assert((seq!['\\', '\''] + rest).skip(2) =~= rest);
    assert((seq!['\\', c] + rest).skip(2) =~= rest);
}

/// A text in quotes of either kind is the text, with its escapes undone; a number in decimal is the
/// number; the words for true and false are these; and no text at all is no value.
pub proof fn values_are_read_by_their_kind(s: Seq<char>, n: int)
    ensures
        value_read(seq!['"'] + s + seq!['"']) == ValueRead::Value(Toml::Str(unescaped(s))),
        value_read(seq!['\''] + s + seq!['\'']) == ValueRead::Value(Toml::Str(unescaped(s))),
        i64::MIN <= n <= i64::MAX ==> value_read(dec_signed(n)) == ValueRead::Value(Toml::Int(n)),
        value_read("true"@) == ValueRead::Value(Toml::Bool(true)),
        value_read("false"@) == ValueRead::Value(Toml::Bool(false)),
        value_read(Seq::empty()) is Error,
{
    reveal_strlit("true");
    reveal_strlit("false");
    assert("true"@[0] == 't' && "false"@[0] == 'f');
    let double = seq!['"'] + s + seq!['"'];
    assert(double[0] == '"' && double.last() == '"');
    assert(double.subrange(1, double.len() - 1) =~= s);
    let single = seq!['\''] + s + seq!['\''];
    assert(single[0] == '\'' && single.last() == '\'');
    assert(single.subrange(1, single.len() - 1) =~= s);
    if i64::MIN <= n <= i64::MAX {
        numbers_are_read_within_limits(0, 0, n);
        let t = dec_signed(n);
        if n < 0 {
            written_number_is_read_back((-n) as nat, 10);
            assert(t[0] == '-');
        } else {
            written_number_is_read_back(n as nat, 10);
            assert(digit(t[0], 10) is Some);
        }
    }
}

/// A comment starts at the first number sign outside quotes, and reaches to the end of the line; a
/// line without one stays whole.
pub proof fn comments_are_taken_off(line: Seq<char>, k: int)
    requires
        0 <= k <= line.len(),
        forall|i: int|
            0 <= i < k ==> !(#[trigger] line[i] == '#' && quote_at(line, i) == QuoteState::Outside),
        k < line.len() ==> line[k] == '#' && quote_at(line, k) == QuoteState::Outside,
    ensures
        stripped(line) == line.take(k),
{
    lemma_comment_from(line, 0, k);
}

/// Where the comment starts.
proof fn lemma_comment_from(line: Seq<char>, i: int, k: int)
    requires
        0 <= i <= k <= line.len(),
        forall|j: int|
            i <= j < k ==> !(#[trigger] line[j] == '#' && quote_at(line, j) == QuoteState::Outside),
        k < line.len() ==> line[k] == '#' && quote_at(line, k) == QuoteState::Outside,
    ensures
        comment_from(line, i) == k,
    decreases k - i,
{
    if i < k {
        lemma_comment_from(line, i + 1, k);
    }
}

/// A position is outside quotes where no quote came before it; a quote of one kind lasts until the
/// next of its kind, and a character after a backslash ends no double quote.
pub proof fn quotes_last_until_they_are_closed(line: Seq<char>, i: int)
    requires
        0 <= i < line.len(),
    ensures
        quote_at(line, 0) == QuoteState::Outside,
        ({
            let at = quote_at(line, i);
            let next = quote_at(line, i + 1);
            &&& at == QuoteState::Outside ==> (next == QuoteState::Double <==> line[i] == '"')
            &&& at == QuoteState::Outside ==> (next == QuoteState::Single <==> line[i] == '\'')
            &&& at == QuoteState::Outside && line[i] != '"' && line[i] != '\'' ==> next
                == QuoteState::Outside
            &&& at == QuoteState::Single ==> next == (if line[i] == '\'' {
                QuoteState::Outside
            } else {
                QuoteState::Single
            })
            &&& at == QuoteState::Double && line[i] == '"' ==> next == QuoteState::Outside
            &&& at == QuoteState::Double && line[i] == '\\' ==> next == QuoteState::Escaped
            &&& at == QuoteState::Double && line[i] != '"' && line[i] != '\\' ==> next
                == QuoteState::Double
            &&& at == QuoteState::Escaped ==> next == QuoteState::Double
        }),
{
}

} // verus!
