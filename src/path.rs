//! The on-disk layout of entries: `<root>/<year>/<month>/<day>.txt`.
use crate::date::{digit_value, digits_value, is_digit, CalendarDate, MIN_YEAR};
use vstd::prelude::*;

verus! {

/// The character of the decimal digit `d` (0 to 9).
pub open spec fn digit_char(d: nat) -> char {
    if d == 0 {
        '0'
    } else if d == 1 {
        '1'
    } else if d == 2 {
        '2'
    } else if d == 3 {
        '3'
    } else if d == 4 {
        '4'
    } else if d == 5 {
        '5'
    } else if d == 6 {
        '6'
    } else if d == 7 {
        '7'
    } else if d == 8 {
        '8'
    } else {
        '9'
    }
}

/// Decimal text of `n` with no leading zeros.
pub open spec fn decimal(n: nat) -> Seq<char>
    decreases n,
{
    if n < 10 {
        seq![digit_char(n)]
    } else {
        decimal(n / 10).push(digit_char(n % 10))
    }
}

/// Decimal text of `n`, zero-padded to at least two characters.
pub open spec fn padded2(n: nat) -> Seq<char> {
    if n < 10 {
        seq!['0', digit_char(n)]
    } else {
        decimal(n)
    }
}

/// Text of a year: at least two characters wide, with a leading `-` for
/// years before year zero.
pub open spec fn year_text(year: int) -> Seq<char> {
    if year < 0 {
        seq!['-'] + decimal((-year) as nat)
    } else {
        padded2(year as nat)
    }
}

/// `base` followed by a `/`, unless it is empty or already ends in one.
pub open spec fn with_separator(base: Seq<char>) -> Seq<char> {
    if base.len() == 0 || base.last() == '/' {
        base
    } else {
        base.push('/')
    }
}

/// The relative path `segment` placed under the directory `base`.
pub open spec fn joined_text(base: Seq<char>, segment: Seq<char>) -> Seq<char> {
    with_separator(base) + segment
}

/// The directory that holds the entries of one month: `<root>/<year>/<month>`.
pub open spec fn entry_directory_text(root: Seq<char>, date: CalendarDate) -> Seq<char> {
    with_separator(root) + year_text(date.year as int) + seq!['/'] + padded2(date.month as nat)
}

/// The file name of an entry: `<day>.txt`.
pub open spec fn entry_file_name(date: CalendarDate) -> Seq<char> {
    padded2(date.day as nat) + seq!['.', 't', 'x', 't']
}

/// The path of the entry for `date`: `<root>/<year>/<month>/<day>.txt`.
pub open spec fn entry_path_text(root: Seq<char>, date: CalendarDate) -> Seq<char> {
    entry_directory_text(root, date) + seq!['/'] + entry_file_name(date)
}

fn push_digit(s: &mut String, d: u32)
    requires
        d < 10,
    ensures
        final(s)@ == old(s)@.push(digit_char(d as nat)),
{
    proof {
        reveal_strlit("0");
        reveal_strlit("1");
        reveal_strlit("2");
        reveal_strlit("3");
        reveal_strlit("4");
        reveal_strlit("5");
        reveal_strlit("6");
        reveal_strlit("7");
        reveal_strlit("8");
        reveal_strlit("9");
    }
    let t = if d == 0 {
        "0"
    } else if d == 1 {
        "1"
    } else if d == 2 {
        "2"
    } else if d == 3 {
        "3"
    } else if d == 4 {
        "4"
    } else if d == 5 {
        "5"
    } else if d == 6 {
        "6"
    } else if d == 7 {
        "7"
    } else if d == 8 {
        "8"
    } else {
        "9"
    };
    s.append(t);
    assert(final(s)@ =~= old(s)@.push(digit_char(d as nat)));
}

fn push_decimal(s: &mut String, n: u32)
    ensures
        final(s)@ == old(s)@ + decimal(n as nat),
    decreases n,
{
    if n < 10 {
        push_digit(s, n);
        assert(final(s)@ =~= old(s)@ + decimal(n as nat));
    } else {
        push_decimal(s, n / 10);
        push_digit(s, n % 10);
        assert(final(s)@ =~= old(s)@ + decimal(n as nat));
    }
}

fn push_padded2(s: &mut String, n: u32)
    ensures
        final(s)@ == old(s)@ + padded2(n as nat),
{
    if n < 10 {
        push_digit(s, 0);
        push_digit(s, n);
        assert(final(s)@ =~= old(s)@ + padded2(n as nat));
    } else {
        push_decimal(s, n);
    }
}

fn push_str(s: &mut String, t: &str)
    ensures
        final(s)@ == old(s)@ + t@,
{
    s.append(t);
}

fn push_year(s: &mut String, year: i32)
    requires
        year >= MIN_YEAR,
    ensures
        final(s)@ == old(s)@ + year_text(year as int),
{
    if year < 0 {
        proof {
            reveal_strlit("-");
        }
        push_str(s, "-");
        push_decimal(s, (-year) as u32);
        assert(final(s)@ =~= old(s)@ + year_text(year as int));
    } else {
        push_padded2(s, year as u32);
    }
}

/// Copies `base` and adds a `/` unless it is empty or already ends in one.
fn start_under(base: &str) -> (r: String)
    ensures
        r@ == with_separator(base@),
{
    let mut s = String::from_str(base);
    let len = base.unicode_len();
    if len > 0 && base.get_char(len - 1) != '/' {
        proof {
            reveal_strlit("/");
        }
        push_str(&mut s, "/");
        assert(s@ =~= with_separator(base@));
    }
    s
}

/// The relative path `segment` placed under the directory `base`, with one
/// separator between them.
pub fn join_path(base: &str, segment: &str) -> (r: String)
    ensures
        r@ == joined_text(base@, segment@),
{
    let mut s = start_under(base);
    push_str(&mut s, segment);
    s
}

/// The directory `<root>/<year>/<month>` that holds the entry for `date`.
pub fn entry_directory(root: &str, date: &CalendarDate) -> (r: String)
    requires
        date.wf(),
    ensures
        r@ == entry_directory_text(root@, *date),
{
    let mut s = start_under(root);
    push_year(&mut s, date.year);
    proof {
        reveal_strlit("/");
    }
    push_str(&mut s, "/");
    push_padded2(&mut s, date.month as u32);
    assert(s@ =~= entry_directory_text(root@, *date));
    s
}

/// The path `<root>/<year>/<month>/<day>.txt` of the entry for `date`.
pub fn entry_path(root: &str, date: &CalendarDate) -> (r: String)
    requires
        date.wf(),
    ensures
        r@ == entry_path_text(root@, *date),
{
    let mut s = entry_directory(root, date);
    proof {
        reveal_strlit("/");
        reveal_strlit(".txt");
    }
    push_str(&mut s, "/");
    push_padded2(&mut s, date.day as u32);
    push_str(&mut s, ".txt");
    assert(s@ =~= entry_path_text(root@, *date));
    s
}

proof fn lemma_digit_char(d: nat)
    requires
        d < 10,
    ensures
        is_digit(digit_char(d)),
        digit_value(digit_char(d)) == d,
{
}

proof fn lemma_decimal(n: nat)
    ensures
        decimal(n).len() >= 1,
        forall|i: int| 0 <= i < decimal(n).len() ==> #[trigger] is_digit(decimal(n)[i]),
        digits_value(decimal(n)) == n,
        n < 10 ==> decimal(n).len() == 1,
        10 <= n < 100 ==> decimal(n).len() == 2,
        10 <= n ==> decimal(n).len() >= 2,
    decreases n,
{
    if n < 10 {
        lemma_digit_char(n);
        assert(decimal(n).drop_last() =~= Seq::<char>::empty());
        assert(digits_value(Seq::<char>::empty()) == 0);
        assert(digits_value(decimal(n)) == digits_value(decimal(n).drop_last()) * 10
            + digit_value(decimal(n).last()));
    } else {
        lemma_decimal(n / 10);
        lemma_digit_char(n % 10);
        assert(decimal(n).drop_last() =~= decimal(n / 10));
        assert(decimal(n).last() == digit_char(n % 10));
        assert(digits_value(decimal(n)) == digits_value(decimal(n / 10)) * 10 + (n % 10));
    }
}

proof fn lemma_padded2(n: nat)
    ensures
        padded2(n).len() >= 2,
        is_digit(padded2(n)[0]),
        digits_value(padded2(n)) == n,
        n < 100 ==> padded2(n).len() == 2,
{
    lemma_decimal(n);
    if n < 10 {
        lemma_digit_char(n);
        let p = padded2(n);
        assert(p.drop_last() =~= seq!['0']);
        assert(seq!['0'].drop_last() =~= Seq::<char>::empty());
        let z = seq!['0'];
        assert(z.drop_last() =~= Seq::<char>::empty());
        assert(digits_value(Seq::<char>::empty()) == 0);
        assert(digits_value(z) == digits_value(z.drop_last()) * 10 + digit_value(z.last()));
        assert(digits_value(seq!['0']) == 0);
        assert(digits_value(p) == digits_value(seq!['0']) * 10 + digit_value(digit_char(n)));
    }
}

proof fn lemma_year_text_injective(y1: int, y2: int)
    requires
        year_text(y1) == year_text(y2),
    ensures
        y1 == y2,
{
    lemma_padded2(y1 as nat);
    lemma_padded2(y2 as nat);
    lemma_decimal((-y1) as nat);
    lemma_decimal((-y2) as nat);
    if y1 < 0 && y2 < 0 {
        assert(year_text(y1).drop_first() =~= decimal((-y1) as nat));
        assert(year_text(y2).drop_first() =~= decimal((-y2) as nat));
    } else if y1 < 0 {
        assert(year_text(y1)[0] == '-');
    } else if y2 < 0 {
        assert(year_text(y2)[0] == '-');
    }
}

/// The entry path is a function of the root and the date alone: the same
/// root and date always give the same path.
pub proof fn lemma_entry_path_deterministic(
    root1: Seq<char>,
    root2: Seq<char>,
    d1: CalendarDate,
    d2: CalendarDate,
)
    requires
        root1 == root2,
        d1 == d2,
    ensures
        entry_path_text(root1, d1) == entry_path_text(root2, d2),
{
}

/// Under one root, two different valid dates never share an entry path.
pub proof fn lemma_entry_path_injective(root: Seq<char>, d1: CalendarDate, d2: CalendarDate)
    requires
        d1.wf(),
        d2.wf(),
        d1 != d2,
    ensures
        entry_path_text(root, d1) != entry_path_text(root, d2),
{
    if entry_path_text(root, d1) == entry_path_text(root, d2) {
        let w = with_separator(root);
        let (y1, y2) = (year_text(d1.year as int), year_text(d2.year as int));
        let (m1, m2) = (padded2(d1.month as nat), padded2(d2.month as nat));
        let (a1, a2) = (padded2(d1.day as nat), padded2(d2.day as nat));
        lemma_padded2(d1.month as nat);
        lemma_padded2(d2.month as nat);
        lemma_padded2(d1.day as nat);
        lemma_padded2(d2.day as nat);
        let p1 = entry_path_text(root, d1);
        let p2 = entry_path_text(root, d2);
        assert(p1 =~= w + y1 + (seq!['/'] + m1 + seq!['/'] + a1 + seq!['.', 't', 'x', 't']));
        assert(p2 =~= w + y2 + (seq!['/'] + m2 + seq!['/'] + a2 + seq!['.', 't', 'x', 't']));
        assert(y1.len() == y2.len());
        let k: int = (w.len() + y1.len()) as int;
        assert(y1 =~= p1.subrange(w.len() as int, k));
        assert(y2 =~= p2.subrange(w.len() as int, k));
        assert(m1 =~= p1.subrange(k + 1, k + 3));
        assert(m2 =~= p2.subrange(k + 1, k + 3));
        assert(a1 =~= p1.subrange(k + 4, k + 6));
        assert(a2 =~= p2.subrange(k + 4, k + 6));
        lemma_year_text_injective(d1.year as int, d2.year as int);
    }
}

/// The entry file sits directly in the entry directory: its path is the
/// directory's path joined with the file name `<day>.txt`.
pub proof fn lemma_entry_in_directory(root: Seq<char>, date: CalendarDate)
    requires
        date.wf(),
    ensures
        entry_path_text(root, date) == joined_text(
            entry_directory_text(root, date),
            entry_file_name(date),
        ),
{
    lemma_padded2(date.month as nat);
    let dir = entry_directory_text(root, date);
    let m = padded2(date.month as nat);
    assert(dir.last() == m.last());
    assert(m.last() == m[1]);
    lemma_decimal(date.month as nat);
    if date.month >= 10 {
        assert(is_digit(decimal(date.month as nat)[1]));
    } else {
        lemma_digit_char(date.month as nat);
    }
    assert(dir.last() != '/');
    assert(entry_path_text(root, date) =~= joined_text(dir, entry_file_name(date)));
}

} // verus!
