//! The configuration: `key = value` lines read into an ordered list of
//! settings, where a later line for the same key wins.
use vstd::prelude::*;

verus! {

/// `l` holds the separator ` = ` starting at position `i`.
pub open spec fn separator_at(l: Seq<char>, i: int) -> bool {
    &&& 0 <= i
    &&& i + 3 <= l.len()
    &&& l[i] == ' '
    &&& l[i + 1] == '='
    &&& l[i + 2] == ' '
}

/// `i` is the first position of `l` at which the separator ` = ` starts.
pub open spec fn is_first_separator(l: Seq<char>, i: int) -> bool {
    separator_at(l, i) && forall|j: int| 0 <= j < i ==> !#[trigger] separator_at(l, j)
}

/// The setting that one line holds: the text before the first ` = ` as the
/// key and the text after it as the value; `None` for a line without one.
pub open spec fn line_setting(l: Seq<char>) -> Option<(Seq<char>, Seq<char>)> {
    if exists|i: int| is_first_separator(l, i) {
        let i = choose|i: int| is_first_separator(l, i);
        Some((l.subrange(0, i), l.subrange(i + 3, l.len() as int)))
    } else {
        None
    }
}

/// `settings` followed by the setting of the line `l`, if it holds one.
pub open spec fn add_line(
    settings: Seq<(Seq<char>, Seq<char>)>,
    l: Seq<char>,
) -> Seq<(Seq<char>, Seq<char>)> {
    match line_setting(l) {
        Some(p) => settings.push(p),
        None => settings,
    }
}

/// A line without the carriage return of a `\r\n` line ending.
pub open spec fn strip_cr(l: Seq<char>) -> Seq<char> {
    if l.len() > 0 && l.last() == '\r' {
        l.drop_last()
    } else {
        l
    }
}

/// The settings of the complete lines of `t`, and the unfinished line after
/// the last `\n`.
pub open spec fn scan_lines(t: Seq<char>) -> (Seq<(Seq<char>, Seq<char>)>, Seq<char>)
    decreases t.len(),
{
    if t.len() == 0 {
        (Seq::empty(), Seq::empty())
    } else {
        let (settings, current) = scan_lines(t.drop_last());
        if t.last() == '\n' {
            (add_line(settings, strip_cr(current)), Seq::empty())
        } else {
            (settings, current.push(t.last()))
        }
    }
}

/// The settings of configuration text, one per line that holds ` = `, in the
/// order of the lines.
pub open spec fn settings_of_text(t: Seq<char>) -> Seq<(Seq<char>, Seq<char>)> {
    add_line(scan_lines(t).0, scan_lines(t).1)
}

/// The value of the last setting for `key`, if any.
pub open spec fn lookup(settings: Seq<(Seq<char>, Seq<char>)>, key: Seq<char>) -> Option<
    Seq<char>,
>
    decreases settings.len(),
{
    if settings.len() == 0 {
        None
    } else if settings.last().0 == key {
        Some(settings.last().1)
    } else {
        lookup(settings.drop_last(), key)
    }
}

/// Configuration settings in the order they were read.
pub struct ConfigMap {
    pub entries: Vec<(String, String)>,
}

impl View for ConfigMap {
    type V = Seq<(Seq<char>, Seq<char>)>;

    open spec fn view(&self) -> Seq<(Seq<char>, Seq<char>)> {
        Seq::new(self.entries@.len(), |i: int| (self.entries@[i].0@, self.entries@[i].1@))
    }
}

impl ConfigMap {
    /// A configuration with no settings.
    pub fn new() -> (r: ConfigMap)
        ensures
            r@ == Seq::<(Seq<char>, Seq<char>)>::empty(),
    {
        let r = ConfigMap { entries: Vec::new() };
        assert(r@ =~= Seq::<(Seq<char>, Seq<char>)>::empty());
        r
    }

    /// Adds a setting; it takes precedence over earlier ones for its key.
    pub fn insert(&mut self, key: String, value: String)
        ensures
            final(self)@ == old(self)@.push((key@, value@)),
    {
        self.entries.push((key, value));
        assert(final(self)@ =~= old(self)@.push((key@, value@)));
    }

    /// The value of the last setting for `key`.
    pub fn get(&self, key: &str) -> (r: Option<String>)
        ensures
            r matches Some(v) ==> lookup(self@, key@) == Some(v@),
            r is None ==> lookup(self@, key@) is None,
    {
        let k = String::from_str(key);
        let mut i: usize = self.entries.len();
        assert(self@.subrange(0, i as int) =~= self@);
        while i > 0
            invariant
                i <= self.entries@.len(),
                k@ == key@,
                lookup(self@, key@) == lookup(self@.subrange(0, i as int), key@),
            decreases i,
        {
            assert(self@.subrange(0, i as int).drop_last() =~= self@.subrange(0, i - 1));
            if self.entries[i - 1].0 == k {
                return Some(self.entries[i - 1].1.clone());
            }
            i = i - 1;
        }
        None
    }

    /// Whether some setting has `key`.
    pub fn contains_key(&self, key: &str) -> (r: bool)
        ensures
            r == (lookup(self@, key@) is Some),
    {
        self.get(key).is_some()
    }
}

/// The position of the first ` = ` in `l`.
fn find_separator(l: &str) -> (r: Option<usize>)
    requires
        l@.len() <= usize::MAX,
    ensures
        r matches Some(i) ==> is_first_separator(l@, i as int),
        r is None ==> forall|i: int| !#[trigger] separator_at(l@, i),
{
    let n = l.unicode_len();
    let mut i: usize = 0;
    while n >= 3 && i <= n - 3
        invariant
            n == l@.len(),
            forall|j: int| 0 <= j < i ==> !#[trigger] separator_at(l@, j),
        decreases n - i,
    {
        if l.get_char(i) == ' ' && l.get_char(i + 1) == '=' && l.get_char(i + 2) == ' ' {
            return Some(i);
        }
        i = i + 1;
    }
    None
}

/// The setting that the line `l` holds, if any.
fn parse_line(l: &str) -> (r: Option<(String, String)>)
    requires
        l@.len() <= usize::MAX,
    ensures
        r matches Some(p) ==> line_setting(l@) == Some((p.0@, p.1@)),
        r is None ==> line_setting(l@) is None,
{
    match find_separator(l) {
        Some(i) => {
            proof {
                assert forall|j: int| is_first_separator(l@, j) implies j == i by {
                    if j < i {
                        assert(!separator_at(l@, j));
                    } else if j > i {
                        assert(!separator_at(l@, i as int));
                    }
                }
            }
            let n = l.unicode_len();
            let key = String::from_str(l.substring_char(0, i));
            let value = String::from_str(l.substring_char(i + 3, n));
            Some((key, value))
        },
        None => None,
    }
}

/// Adds the setting of the line `t[start..end]`, if it holds one.
fn add_line_of(config: &mut ConfigMap, t: &str, start: usize, end: usize)
    requires
        start <= end <= t@.len() <= usize::MAX,
    ensures
        final(config)@ == add_line(old(config)@, t@.subrange(start as int, end as int)),
{
    let line = t.substring_char(start, end);
    match parse_line(line) {
        Some((k, v)) => config.insert(k, v),
        None => {},
    }
}

/// Reads configuration text: each line that holds ` = ` gives a setting with
/// the text before the first ` = ` as key and the text after it as value.
/// Other lines are ignored. Lines end at `\n` or `\r\n`.
pub fn parse_config(text: &str) -> (r: ConfigMap)
    ensures
        r@ == settings_of_text(text@),
{
    let n = text.unicode_len();
    let mut config = ConfigMap::new();
    let mut start: usize = 0;
    let mut i: usize = 0;
    assert(text@.subrange(0, 0) =~= Seq::<char>::empty());
    while i < n
        invariant
            n == text@.len(),
            start <= i <= n,
            scan_lines(text@.subrange(0, i as int)) == (config@, text@.subrange(
                start as int,
                i as int,
            )),
        decreases n - i,
    {
        let c = text.get_char(i);
        let ghost prefix = text@.subrange(0, i + 1);
        assert(prefix.drop_last() =~= text@.subrange(0, i as int));
        if c == '\n' {
            let end = if i > start && text.get_char(i - 1) == '\r' {
                i - 1
            } else {
                i
            };
            assert(text@.subrange(start as int, end as int) =~= strip_cr(
                text@.subrange(start as int, i as int),
            ));
            add_line_of(&mut config, text, start, end);
            start = i + 1;
            assert(text@.subrange(start as int, i + 1) =~= Seq::<char>::empty());
        } else {
            assert(text@.subrange(start as int, i + 1) =~= text@.subrange(
                start as int,
                i as int,
            ).push(c));
        }
        i = i + 1;
    }
    assert(text@.subrange(0, n as int) =~= text@);
    add_line_of(&mut config, text, start, n);
    config
}

} // verus!
