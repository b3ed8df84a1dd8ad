//! What a caller can set for one parse.
use vstd::prelude::*;

verus! {

/// The views of owned strings, in the same order.
pub open spec fn string_views(strings: Seq<String>) -> Seq<Seq<char>> {
    strings.map_values(|s: String| s@)
}

/// The views of borrowed strings, in the same order.
pub open spec fn str_views(strings: Seq<&str>) -> Seq<Seq<char>> {
    strings.map_values(|s: &str| s@)
}

/// The delimiters that are allowed when nothing else is asked for.
pub open spec fn default_delimiters() -> Seq<char> {
    seq![' ', '_', '.', '&', '+', ',', '|']
}

/// What the options are in contracts.
pub struct OptionsView {
    pub allowed_delimiters: Seq<char>,
    pub ignored_strings: Seq<Seq<char>>,
    pub parse_episode_number: bool,
    pub parse_episode_title: bool,
    pub parse_file_extension: bool,
    pub parse_release_group: bool,
}

/// The options used to determine how to parse a filename.
#[derive(Debug, Clone, PartialEq, Eq)]
pub struct Options {
    pub allowed_delimiters: Vec<char>,
    pub ignored_strings: Vec<String>,
    pub parse_episode_number: bool,
    pub parse_episode_title: bool,
    pub parse_file_extension: bool,
    pub parse_release_group: bool,
}

impl View for Options {
    type V = OptionsView;

    open spec fn view(&self) -> OptionsView {
        OptionsView {
            allowed_delimiters: self.allowed_delimiters@,
            ignored_strings: string_views(self.ignored_strings@),
            parse_episode_number: self.parse_episode_number,
            parse_episode_title: self.parse_episode_title,
            parse_file_extension: self.parse_file_extension,
            parse_release_group: self.parse_release_group,
        }
    }
}

/// Whether the options can be handed to a caller that ends its strings with
/// the character NUL: no delimiter is NUL and no ignored string holds one.
pub open spec fn representable(options: OptionsView) -> bool {
    &&& !options.allowed_delimiters.contains('\0')
    &&& forall|i: int|
        0 <= i < options.ignored_strings.len() ==> !(#[trigger] options.ignored_strings[i]).contains(
            '\0',
        )
}

/// Whether `c` is one of the characters of `s`.
fn holds_char(s: &str, c: char) -> (r: bool)
    ensures
        r == s@.contains(c),
{
    let mut r = false;
    for d in it: s.chars()
        invariant
            it.seq() == s@,
            r == s@.take(it.index() as int).contains(c),
    {
        assert(s@.take(it.index() + 1) =~= s@.take(it.index() as int).push(d));
        if d == c {
            r = true;
            assert(s@.take(it.index() + 1)[it.index() as int] == c);
        }
    }
    assert(s@.take(s@.len() as int) =~= s@);
    r
}

/// A copy of a list of characters.
fn copy_chars(chars: &[char]) -> (r: Vec<char>)
    ensures
        r@ == chars@,
{
    let mut r: Vec<char> = Vec::new();
    let mut i: usize = 0;
    while i < chars.len()
        invariant
            i <= chars.len(),
            r@ == chars@.take(i as int),
        decreases chars.len() - i,
    {
        r.push(chars[i]);
        assert(chars@.take(i as int + 1) =~= chars@.take(i as int).push(chars@[i as int]));
        i += 1;
    }
    assert(chars@.take(i as int) =~= chars@);
    r
}

/// Owned copies of a list of strings.
fn copy_strings(strings: &[&str]) -> (r: Vec<String>)
    ensures
        string_views(r@) == str_views(strings@),
{
    let mut r: Vec<String> = Vec::new();
    let mut i: usize = 0;
    assert(string_views(r@) =~= str_views(strings@.take(0)));
    while i < strings.len()
        invariant
            i <= strings.len(),
            string_views(r@) == str_views(strings@.take(i as int)),
        decreases strings.len() - i,
    {
        let ghost before = r@;
        let owned = strings[i].to_owned();
        r.push(owned);
        assert(strings@.take(i as int + 1) =~= strings@.take(i as int).push(strings@[i as int]));
        assert(string_views(r@) =~= string_views(before).push(owned@));
        i += 1;
    }
    assert(strings@.take(i as int) =~= strings@);
    r
}

impl Options {
    /// Construct a new instance of Options with the given settings.
    pub fn new(
        allowed_delimiters: &[char],
        ignored_strings: &[&str],
        parse_episode_number: bool,
        parse_episode_title: bool,
        parse_file_extension: bool,
        parse_release_group: bool,
    ) -> (r: Self)
        ensures
            r@ == (OptionsView {
                allowed_delimiters: allowed_delimiters@,
                ignored_strings: str_views(ignored_strings@),
                parse_episode_number,
                parse_episode_title,
                parse_file_extension,
                parse_release_group,
            }),
    {
        Options {
            allowed_delimiters: copy_chars(allowed_delimiters),
            ignored_strings: copy_strings(ignored_strings),
            parse_episode_number,
            parse_episode_title,
            parse_file_extension,
            parse_release_group,
        }
    }

    /// Computes [`representable`].
    pub fn is_representable(&self) -> (r: bool)
        ensures
            r == representable(self@),
    {
        let mut i: usize = 0;
        while i < self.allowed_delimiters.len()
            invariant
                i <= self.allowed_delimiters@.len(),
                forall|j: int| 0 <= j < i ==> self.allowed_delimiters@[j] != '\0',
            decreases self.allowed_delimiters@.len() - i,
        {
            if self.allowed_delimiters[i] == '\0' {
                return false;
            }
            i += 1;
        }
        let mut k: usize = 0;
        while k < self.ignored_strings.len()
            invariant
                k <= self.ignored_strings@.len(),
                !self.allowed_delimiters@.contains('\0'),
                forall|j: int| 0 <= j < k ==> !(#[trigger] self@.ignored_strings[j]).contains('\0'),
            decreases self.ignored_strings@.len() - k,
        {
            if holds_char(self.ignored_strings[k].as_str(), '\0') {
                assert(self@.ignored_strings[k as int].contains('\0'));
                return false;
            }
            k += 1;
        }
        true
    }

    /// A copy of the options.
    pub fn duplicate(&self) -> (r: Self)
        ensures
            r@ == self@,
    {
        let mut ignored: Vec<String> = Vec::new();
        let mut i: usize = 0;
        assert(string_views(ignored@) =~= string_views(self.ignored_strings@.take(0)));
        while i < self.ignored_strings.len()
            invariant
                i <= self.ignored_strings@.len(),
                string_views(ignored@) == string_views(self.ignored_strings@.take(i as int)),
            decreases self.ignored_strings@.len() - i,
        {
            let ghost before = ignored@;
            let copy = self.ignored_strings[i].clone();
            ignored.push(copy);
            assert(self.ignored_strings@.take(i as int + 1) =~= self.ignored_strings@.take(
                i as int,
            ).push(self.ignored_strings@[i as int]));
            assert(string_views(ignored@) =~= string_views(before).push(copy@));
            assert(string_views(self.ignored_strings@.take(i as int + 1)) =~= string_views(
                self.ignored_strings@.take(i as int),
            ).push(self.ignored_strings@[i as int]@));
            i += 1;
        }
        assert(self.ignored_strings@.take(i as int) =~= self.ignored_strings@);
        Options {
            allowed_delimiters: copy_chars(self.allowed_delimiters.as_slice()),
            ignored_strings: ignored,
            parse_episode_number: self.parse_episode_number,
            parse_episode_title: self.parse_episode_title,
            parse_file_extension: self.parse_file_extension,
            parse_release_group: self.parse_release_group,
        }
    }

    /// Adds a delimiter char to the list of allowed delimiters.
    pub fn allow_delimiter(&mut self, delimiter: char) -> (r: &mut Self)
        ensures
            r@ == (OptionsView {
                allowed_delimiters: old(self)@.allowed_delimiters.push(delimiter),
                ..old(self)@
            }),
            *final(self) == *final(r),
    {
        self.allowed_delimiters.push(delimiter);
        self
    }

    /// Replaces the list of allowed delimiters.
    pub fn allow_delimiters(&mut self, delimiters: &[char]) -> (r: &mut Self)
        ensures
            r@ == (OptionsView { allowed_delimiters: delimiters@, ..old(self)@ }),
            *final(self) == *final(r),
    {
        self.allowed_delimiters = copy_chars(delimiters);
        self
    }

    /// Adds a string to the list of ignored strings.
    pub fn ignore_string(&mut self, string: &str) -> (r: &mut Self)
        ensures
            r@ == (OptionsView {
                ignored_strings: old(self)@.ignored_strings.push(string@),
                ..old(self)@
            }),
            *final(self) == *final(r),
    {
        let ghost before = self.ignored_strings@;
        let owned = string.to_owned();
        self.ignored_strings.push(owned);
        assert(string_views(self.ignored_strings@) =~= string_views(before).push(string@));
        self
    }

    /// Replaces the list of ignored strings.
    pub fn ignore_strings(&mut self, strings: &[&str]) -> (r: &mut Self)
        ensures
            r@ == (OptionsView { ignored_strings: str_views(strings@), ..old(self)@ }),
            *final(self) == *final(r),
    {
        self.ignored_strings = copy_strings(strings);
        self
    }

    /// Sets whether the parser should attempt to parse the episode number.
    pub fn parse_episode_number(&mut self, parse: bool) -> (r: &mut Self)
        ensures
            r@ == (OptionsView { parse_episode_number: parse, ..old(self)@ }),
            *final(self) == *final(r),
    {
        self.parse_episode_number = parse;
        self
    }

    /// Sets whether the parser should attempt to parse the episode title.
    pub fn parse_episode_title(&mut self, parse: bool) -> (r: &mut Self)
        ensures
            r@ == (OptionsView { parse_episode_title: parse, ..old(self)@ }),
            *final(self) == *final(r),
    {
        self.parse_episode_title = parse;
        self
    }

    /// Sets whether the parser should attempt to parse the file extension.
    pub fn parse_file_extension(&mut self, parse: bool) -> (r: &mut Self)
        ensures
            r@ == (OptionsView { parse_file_extension: parse, ..old(self)@ }),
            *final(self) == *final(r),
    {
        self.parse_file_extension = parse;
        self
    }

    /// Sets whether the parser should attempt to parse the release group.
    pub fn parse_release_group(&mut self, parse: bool) -> (r: &mut Self)
        ensures
            r@ == (OptionsView { parse_release_group: parse, ..old(self)@ }),
            *final(self) == *final(r),
    {
        self.parse_release_group = parse;
        self
    }
}

impl Default for Options {
    /// Constructs a new instance of Options with the defaults: the delimiters
    /// are space, `_`, `.`, `&`, `+`, `,` and `|`, nothing is ignored, and
    /// every category is looked for.
    fn default() -> (r: Self)
        ensures
            r@ == (OptionsView {
                allowed_delimiters: default_delimiters(),
                ignored_strings: Seq::<Seq<char>>::empty(),
                parse_episode_number: true,
                parse_episode_title: true,
                parse_file_extension: true,
                parse_release_group: true,
            }),
    {
        let delimiters = [' ', '_', '.', '&', '+', ',', '|'];
        let ignored: [&str; 0] = [];
        let r = Options::new(&delimiters, &ignored, true, true, true, true);
        assert(r@.allowed_delimiters =~= default_delimiters());
        assert(r@.ignored_strings =~= Seq::<Seq<char>>::empty());
        r
    }
}

} // verus!
