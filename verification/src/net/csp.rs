//! Content security policies: from where a page may load.

use crate::scan;
use crate::text;
use vstd::prelude::*;

verus! {

/// One rule of a policy: its name and the sources that it allows.
#[derive(Debug, Clone)]
pub struct Directive {
    pub name: String,
    pub values: Vec<String>,
}

/// The rules of a policy, of which the first of a name counts.
#[derive(Debug, Clone)]
pub struct ContentSecurityPolicy {
    pub directives: Vec<Directive>,
}

/// The text in lower case.
pub uninterp spec fn lowercase(s: Seq<char>) -> Seq<char>;

/// Whether `s` consists of ASCII characters.
pub open spec fn is_ascii(s: Seq<char>) -> bool {
    forall|i: int| 0 <= i < s.len() ==> (#[trigger] s[i]) as u32 <= 127
}

/// The lower case of an ASCII character.
pub open spec fn ascii_lowercase(c: char) -> char {
    if 'A' <= c && c <= 'Z' {
        (c as u32 + 32) as char
    } else {
        c
    }
}

/// The lower case of an ASCII text.
pub open spec fn ascii_lowercased(s: Seq<char>) -> Seq<char> {
    s.map_values(|c: char| ascii_lowercase(c))
}

/// `str::to_lowercase` gives the text in lower case, which depends on the text alone.
/// For ASCII text it replaces the letters one by one.
#[verifier::external_body]
fn lowercased(s: &str) -> (r: String)
    ensures
        r@ == lowercase(s@),
        is_ascii(s@) ==> r@ == ascii_lowercased(s@),
{
    s.to_lowercase()
}

/// What a piece of a header declares: the text before the first space, and the words
/// after it. A piece without a space declares nothing.
pub open spec fn declaration(piece: Seq<char>) -> Option<(Seq<char>, Seq<Seq<char>>)> {
    let d = text::trim(piece);
    match text::position(d, ' ') {
        Some(i) => Some((d.take(i), text::words(d.skip(i + 1)))),
        None => None,
    }
}

/// The sources that the pieces of a header give for a name: those of the last piece
/// that declares it.
pub open spec fn declared(pieces: Seq<Seq<char>>, name: Seq<char>) -> Option<Seq<Seq<char>>>
    decreases pieces.len(),
{
    if pieces.len() == 0 {
        None
    } else {
        match declaration(pieces.last()) {
            Some((n, values)) => if lowercase(n) == name {
                Some(values)
            } else {
                declared(pieces.drop_last(), name)
            },
            None => declared(pieces.drop_last(), name),
        }
    }
}

/// Whether no two rules have the same name.
pub open spec fn names_differ(ds: Seq<Directive>) -> bool {
    forall|i: int, j: int|
        0 <= i < j < ds.len() ==> (#[trigger] ds[i]).name@ != (#[trigger] ds[j]).name@
}

/// Whether the lower case of the name that a piece declares is that of its letters,
/// where it is an ASCII text.
pub open spec fn lowercase_known(piece: Seq<char>) -> bool {
    declaration(piece) matches Some((n, _)) ==> is_ascii(n) ==> lowercase(n) == ascii_lowercased(n)
}

/// The sources of the first rule of this name.
pub open spec fn rule(ds: Seq<Directive>, name: Seq<char>) -> Option<Seq<Seq<char>>>
    decreases ds.len(),
{
    if ds.len() == 0 {
        None
    } else if ds[0].name@ == name {
        Some(text::texts(ds[0].values@))
    } else {
        rule(ds.drop_first(), name)
    }
}

/// Whether a source covers a URL.
pub open spec fn covers(source: Seq<char>, url: Seq<char>) -> bool {
    source == "'self'"@ || source == "*"@ || text::starts_with(url, source)
}

/// Whether one of the sources covers a URL.
pub open spec fn any_covers(sources: Seq<Seq<char>>, url: Seq<char>) -> bool {
    exists|i: int| 0 <= i < sources.len() && #[trigger] covers(sources[i], url)
}

/// Whether the sources of a rule cover a URL. Without a rule everything is allowed.
pub open spec fn allowed(sources: Option<Seq<Seq<char>>>, url: Seq<char>) -> bool {
    match sources {
        Some(s) => any_covers(s, url),
        None => true,
    }
}

/// What the first rule of a name is: the first rule with it.
proof fn lemma_rule(ds: Seq<Directive>, name: Seq<char>, i: int)
    requires
        0 <= i < ds.len(),
        ds[i].name@ == name,
        forall|j: int| 0 <= j < i ==> (#[trigger] ds[j]).name@ != name,
    ensures
        rule(ds, name) == Some(text::texts(ds[i].values@)),
    decreases i,
{
    if i > 0 {
        assert(ds[0].name@ != name);
        let rest = ds.drop_first();
        assert forall|j: int| 0 <= j < i - 1 implies (#[trigger] rest[j]).name@ != name by {
            assert(rest[j] == ds[j + 1]);
        }
        lemma_rule(rest, name, i - 1);
    }
}

/// Where no rule has the name there is none.
proof fn lemma_no_rule(ds: Seq<Directive>, name: Seq<char>)
    requires
        forall|j: int| 0 <= j < ds.len() ==> (#[trigger] ds[j]).name@ != name,
    ensures
        rule(ds, name) is None,
    decreases ds.len(),
{
    if ds.len() > 0 {
        assert(ds[0].name@ != name);
        let rest = ds.drop_first();
        assert forall|j: int| 0 <= j < rest.len() implies (#[trigger] rest[j]).name@ != name by {
            assert(rest[j] == ds[j + 1]);
        }
        lemma_no_rule(rest, name);
    }
}

/// A rule that was added or replaced is the one of its name, and the others stay.
proof fn lemma_rule_set(before: Seq<Directive>, after: Seq<Directive>, i: int, name: Seq<char>)
    requires
        0 <= i <= before.len(),
        i < before.len() ==> after == before.update(i, after[i]) && before[i].name@
            == after[i].name@,
        i == before.len() ==> after == before.push(after[i]),
        forall|j: int| 0 <= j < i ==> (#[trigger] before[j]).name@ != after[i].name@,
    ensures
        rule(after, name) == if name == after[i].name@ {
            Some(text::texts(after[i].values@))
        } else {
            rule(before, name)
        },
{
    if name == after[i].name@ {
        lemma_rule(after, name, i);
    } else if exists|k: int| 0 <= k < before.len() && (#[trigger] before[k]).name@ == name {
        let k = lemma_first(before, name);
        assert(k != i);
        assert(after[k] == before[k]);
        assert forall|j: int| 0 <= j < k implies (#[trigger] after[j]).name@ != name by {
            if j != i {
                assert(after[j] == before[j]);
            }
        }
        lemma_rule(before, name, k);
        lemma_rule(after, name, k);
    } else {
        assert forall|j: int| 0 <= j < after.len() implies (#[trigger] after[j]).name@ != name by {
            if j != i {
                assert(after[j] == before[j]);
            }
        }
        lemma_no_rule(before, name);
        lemma_no_rule(after, name);
    }
}

/// The first place of a name among the rules.
proof fn lemma_first(ds: Seq<Directive>, name: Seq<char>) -> (k: int)
    requires
        exists|k: int| 0 <= k < ds.len() && (#[trigger] ds[k]).name@ == name,
    ensures
        0 <= k < ds.len(),
        ds[k].name@ == name,
        forall|j: int| 0 <= j < k ==> (#[trigger] ds[j]).name@ != name,
    decreases ds.len(),
{
    let front = ds.drop_last();
    if exists|k: int| 0 <= k < front.len() && (#[trigger] front[k]).name@ == name {
        let k = lemma_first(front, name);
        assert forall|j: int| 0 <= j < k implies (#[trigger] ds[j]).name@ != name by {
            assert(front[j] == ds[j]);
        }
        k
    } else {
        let k = choose|k: int| 0 <= k < ds.len() && (#[trigger] ds[k]).name@ == name;
        assert forall|j: int| 0 <= j < ds.len() - 1 implies (#[trigger] ds[j]).name@ != name by {
            assert(front[j] == ds[j]);
        }
        ds.len() - 1
    }
}

impl Default for ContentSecurityPolicy {
    fn default() -> (r: ContentSecurityPolicy)
        ensures
            r.directives@.len() == 0,
    {
        ContentSecurityPolicy { directives: Vec::new() }
    }
}

/// The words as strings.
fn strings_of(words: &Vec<Vec<char>>) -> (r: Vec<String>)
    ensures
        text::texts(r@) == scan::spelled(words@),
{
    let mut out: Vec<String> = Vec::new();
    let mut i: usize = 0;
    while i < words.len()
        invariant
            i <= words@.len(),
            out@.len() == i,
            forall|j: int| 0 <= j < i ==> (#[trigger] out@[j])@ == words@[j]@,
        decreases words@.len() - i,
    {
        out.push(scan::string_of(&words[i]));
        i += 1;
    }
    assert(text::texts(out@) =~= scan::spelled(words@));
    out
}

impl ContentSecurityPolicy {
    /// The place of the first rule of this name, or the number of rules.
    fn place_of(&self, name: &str) -> (r: usize)
        ensures
            r <= self.directives@.len(),
            r < self.directives@.len() ==> self.directives@[r as int].name@ == name@,
            forall|j: int| 0 <= j < r ==> (#[trigger] self.directives@[j]).name@ != name@,
    {
        let wanted = scan::chars_of(name);
        let mut i: usize = 0;
        while i < self.directives.len()
            invariant
                i <= self.directives@.len(),
                wanted@ == name@,
                forall|j: int| 0 <= j < i ==> (#[trigger] self.directives@[j]).name@ != name@,
            decreases self.directives@.len() - i,
        {
            if scan::equals_str(&wanted, self.directives[i].name.as_str()) {
                return i;
            }
            i += 1;
        }
        i
    }

    /// Gives a name its rule, in place of the one that it has.
    fn insert(&mut self, name: String, values: Vec<String>)
        ensures
            names_differ(old(self).directives@) ==> names_differ(final(self).directives@),
            forall|n: Seq<char>| #[trigger]
                rule(final(self).directives@, n) == if n == name@ {
                    Some(text::texts(values@))
                } else {
                    rule(old(self).directives@, n)
                },
    {
        let ghost before = self.directives@;
        let i = self.place_of(name.as_str());
        let ghost named = name@;
        let ghost given = values@;
        if i < self.directives.len() {
            self.directives.set(i, Directive { name, values });
        } else {
            self.directives.push(Directive { name, values });
        }
        proof {
            let after = self.directives@;
            assert(after[i as int].name@ == named);
            assert forall|n: Seq<char>| #[trigger]
                rule(after, n) == if n == named {
                    Some(text::texts(given))
                } else {
                    rule(before, n)
                } by {
                lemma_rule_set(before, after, i as int, n);
            }
        }
    }

    /// Reads the value of a policy header.
    pub fn parse(header: &str) -> (r: ContentSecurityPolicy)
        ensures
            forall|name: Seq<char>| #[trigger]
                rule(r.directives@, name) == declared(text::split(header@, ';'), name),
            names_differ(r.directives@),
            forall|i: int|
                0 <= i < text::split(header@, ';').len() ==> lowercase_known(
                    #[trigger] text::split(header@, ';')[i],
                ),
    {
        let chars = scan::chars_of(header);
        let pieces = scan::split_at(&chars, ';');
        let ghost all = text::split(header@, ';');
        let mut csp = ContentSecurityPolicy { directives: Vec::new() };
        let mut i: usize = 0;
        while i < pieces.len()
            invariant
                i <= pieces@.len(),
                all == scan::spelled(pieces@),
                forall|name: Seq<char>| #[trigger]
                    rule(csp.directives@, name) == declared(all.take(i as int), name),
                names_differ(csp.directives@),
                forall|j: int| 0 <= j < i ==> lowercase_known(#[trigger] all[j]),
            decreases pieces@.len() - i,
        {
            let directive = scan::trimmed(&pieces[i]);
            let ghost next = all.take(i + 1);
            assert(next.drop_last() =~= all.take(i as int));
            assert(next.last() == pieces@[i as int]@);
            match scan::position_of(&directive, ' ') {
                Some(at) => {
                    let name = scan::slice_of(&directive, 0, at);
                    let value = scan::slice_of(&directive, at + 1, directive.len());
                    assert(name@ =~= directive@.take(at as int));
                    assert(value@ =~= directive@.skip(at + 1));
                    let words = scan::words_of(&value);
                    let values = strings_of(&words);
                    csp.insert(lowercased(scan::string_of(&name).as_str()), values);
                },
                None => {},
            }
            i += 1;
        }
        assert(all.take(i as int) =~= all);
        csp
    }

    pub fn allows_script_src(&self, url: &str) -> (r: bool)
        ensures
            r == allowed(rule(self.directives@, "script-src"@), url@),
    {
        self.allows_source("script-src", url)
    }

    pub fn allows_style_src(&self, url: &str) -> (r: bool)
        ensures
            r == allowed(rule(self.directives@, "style-src"@), url@),
    {
        self.allows_source("style-src", url)
    }

    pub fn allows_connect_src(&self, url: &str) -> (r: bool)
        ensures
            r == allowed(rule(self.directives@, "connect-src"@), url@),
    {
        self.allows_source("connect-src", url)
    }

    /// Whether the rule of this name allows the URL.
    pub fn allows_source(&self, directive: &str, url: &str) -> (r: bool)
        ensures
            r == allowed(rule(self.directives@, directive@), url@),
    {
        let at = self.place_of(directive);
        if at >= self.directives.len() {
            proof {
                lemma_no_rule(self.directives@, directive@);
            }
            return true;
        }
        proof {
            lemma_rule(self.directives@, directive@, at as int);
        }
        let sources = &self.directives[at].values;
        let target = scan::chars_of(url);
        let ghost given = text::texts(sources@);
        let mut i: usize = 0;
        while i < sources.len()
            invariant
                i <= sources@.len(),
                given == text::texts(sources@),
                target@ == url@,
                rule(self.directives@, directive@) == Some(given),
                forall|j: int| 0 <= j < i ==> !#[trigger] covers(given[j], url@),
            decreases sources@.len() - i,
        {
            let source = scan::chars_of(sources[i].as_str());
            assert(given[i as int] == source@);
            if scan::equals_str(&source, "'self'") || scan::equals_str(&source, "*")
                || scan::begins_with(&target, sources[i].as_str()) {
                assert(covers(given[i as int], url@));
                return true;
            }
            i += 1;
        }
        false
    }

    /// Whether the policy has a rule `report-only`.
    pub fn report_only(&self) -> (r: bool)
        ensures
            r == (rule(self.directives@, "report-only"@) is Some),
    {
        let at = self.place_of("report-only");
        proof {
            if at < self.directives@.len() {
                lemma_rule(self.directives@, "report-only"@, at as int);
            } else {
                lemma_no_rule(self.directives@, "report-only"@);
            }
        }
        at < self.directives.len()
    }
}

/// A policy without a rule of a name allows every URL there, and one without any
/// source allows none.
pub proof fn law_no_rule_allows_all(url: Seq<char>)
    ensures
        allowed(None, url),
        !allowed(Some(Seq::empty()), url),
{
}

/// Of two pieces that declare the same name the later one counts.
pub proof fn law_later_piece_counts(
    pieces: Seq<Seq<char>>,
    piece: Seq<char>,
    name: Seq<char>,
)
    ensures
        match declaration(piece) {
            Some((n, values)) => declared(pieces.push(piece), lowercase(n)) == Some(values) && (
            lowercase(n) != name ==> declared(pieces.push(piece), name) == declared(pieces, name)),
            None => declared(pieces.push(piece), name) == declared(pieces, name),
        },
{
    assert(pieces.push(piece).drop_last() =~= pieces);
}

/// More sources never forbid a URL, and their order does not matter: what a list of
/// sources allows is allowed by every list that holds them all.
pub proof fn law_more_sources_allow_more(
    sources: Seq<Seq<char>>,
    more: Seq<Seq<char>>,
    url: Seq<char>,
)
    requires
        forall|i: int| 0 <= i < sources.len() ==> more.contains(#[trigger] sources[i]),
    ensures
        allowed(Some(sources), url) ==> allowed(Some(more), url),
{
    if allowed(Some(sources), url) {
        let i = choose|i: int| 0 <= i < sources.len() && #[trigger] covers(sources[i], url);
        assert(more.contains(sources[i]));
        let k = choose|k: int| 0 <= k < more.len() && more[k] == sources[i];
        assert(covers(more[k], url));
    }
}

/// A policy whose rule of a name holds every source of the rule of another policy allows
/// what that one allows.
pub proof fn law_larger_policies_allow_more(
    p: ContentSecurityPolicy,
    q: ContentSecurityPolicy,
    name: Seq<char>,
    url: Seq<char>,
)
    requires
        rule(p.directives@, name) is Some,
        rule(q.directives@, name) is Some,
        forall|i: int|
            0 <= i < rule(p.directives@, name)->0.len() ==> rule(q.directives@, name)->0.contains(
                #[trigger] rule(p.directives@, name)->0[i],
            ),
    ensures
        allowed(rule(p.directives@, name), url) ==> allowed(rule(q.directives@, name), url),
{
    law_more_sources_allow_more(
        rule(p.directives@, name)->0,
        rule(q.directives@, name)->0,
        url,
    );
}

/// Of a policy without two rules of a name every rule counts.
pub proof fn law_every_rule_counts(ds: Seq<Directive>, i: int)
    requires
        names_differ(ds),
        0 <= i < ds.len(),
    ensures
        rule(ds, ds[i].name@) == Some(text::texts(ds[i].values@)),
{
    lemma_rule(ds, ds[i].name@, i);
}

/// A source other than `'self'` and `*` covers the URLs that begin with it, and no
/// others. Those two cover every URL.
pub proof fn law_source_covers_its_prefix(source: Seq<char>, url: Seq<char>)
    ensures
        covers("'self'"@, url),
        covers("*"@, url),
        source != "'self'"@ && source != "*"@ ==> (covers(source, url) <==> url.len()
            >= source.len() && url.take(source.len() as int) == source),
        source != "'self'"@ && source != "*"@ ==> (covers(source, url) <==> text::starts_with(
            url,
            source,
        )),
{
    text::law_starts_with(url, source, Seq::empty());
}

/// A rule allows a URL where one of its sources is `'self'` or `*` or a beginning of the
/// URL, and only there.
pub proof fn law_rule_allows_what_its_sources_begin(sources: Seq<Seq<char>>, url: Seq<char>)
    ensures
        allowed(Some(sources), url) <==> exists|i: int|
            0 <= i < sources.len() && ((#[trigger] sources[i]) == "'self'"@ || sources[i] == "*"@
                || (url.len() >= sources[i].len() && url.take(sources[i].len() as int)
                == sources[i])),
{
    if allowed(Some(sources), url) {
        let i = choose|i: int| 0 <= i < sources.len() && #[trigger] covers(sources[i], url);
        law_source_covers_its_prefix(sources[i], url);
        assert(sources[i] == sources[i]);
    }
    if exists|i: int|
        0 <= i < sources.len() && ((#[trigger] sources[i]) == "'self'"@ || sources[i] == "*"@ || (
        url.len() >= sources[i].len() && url.take(sources[i].len() as int) == sources[i])) {
        let i = choose|i: int|
            0 <= i < sources.len() && ((#[trigger] sources[i]) == "'self'"@ || sources[i] == "*"@
                || (url.len() >= sources[i].len() && url.take(sources[i].len() as int)
                == sources[i]));
        law_source_covers_its_prefix(sources[i], url);
        assert(covers(sources[i], url));
    }
}

/// A rule with the one source `'none'` allows no URL but one that begins with that text.
pub proof fn law_none_allows_nothing_else(url: Seq<char>)
    ensures
        allowed(Some(seq!["'none'"@]), url) ==> text::starts_with(url, "'none'"@),
{
    reveal_strlit("'none'");
    reveal_strlit("'self'");
    reveal_strlit("*");
    let sources = seq!["'none'"@];
    if allowed(Some(sources), url) {
        let i = choose|i: int| 0 <= i < sources.len() && #[trigger] covers(sources[i], url);
        assert(sources[i] == "'none'"@);
        assert("'none'"@[1] == 'n');
        assert("'self'"@[1] == 's');
        assert("'none'"@.len() == 6 && "*"@.len() == 1);
        law_source_covers_its_prefix("'none'"@, url);
    }
}

/// A piece of a header with a space in it declares a rule: its name is what stands before
/// the first space, and its sources are the words behind that. White space around the
/// piece does not matter.
pub proof fn law_piece_declares(
    before: Seq<char>,
    name: Seq<char>,
    rest: Seq<char>,
    after: Seq<char>,
)
    requires
        forall|i: int| 0 <= i < before.len() ==> text::is_white_space(#[trigger] before[i]),
        forall|i: int| 0 <= i < after.len() ==> text::is_white_space(#[trigger] after[i]),
        forall|i: int| 0 <= i < name.len() ==> #[trigger] name[i] != ' ',
        name.len() > 0,
        !text::is_white_space(name[0]),
        rest.len() > 0,
        !text::is_white_space(rest[rest.len() - 1]),
    ensures
        declaration(before + (name + seq![' '] + rest) + after) == Some((name, text::words(rest))),
{
    let d = name + seq![' '] + rest;
    assert(d[0] == name[0]);
    assert(d[d.len() - 1] == rest[rest.len() - 1]);
    text::law_trim(before, d, after);
    text::lemma_position(d, ' ');
    let i = text::position(d, ' ')->0;
    assert(d[name.len() as int] == ' ');
    if i < name.len() {
        assert(d[i] == name[i]);
    }
    assert(d.take(i) =~= name);
    assert(d.skip(i + 1) =~= rest);
}

/// A piece of a header that has no space between its words declares nothing.
pub proof fn law_piece_without_space_declares_nothing(
    before: Seq<char>,
    word: Seq<char>,
    after: Seq<char>,
)
    requires
        forall|i: int| 0 <= i < before.len() ==> text::is_white_space(#[trigger] before[i]),
        forall|i: int| 0 <= i < after.len() ==> text::is_white_space(#[trigger] after[i]),
        forall|i: int| 0 <= i < word.len() ==> #[trigger] word[i] != ' ',
        word.len() > 0 ==> !text::is_white_space(word[0]) && !text::is_white_space(
            word[word.len() - 1],
        ),
    ensures
        declaration(before + word + after) is None,
{
    text::law_trim(before, word, after);
    text::lemma_position(word, ' ');
}

/// Pieces that follow each other: none declare nothing, and one more declares its name
/// anew and leaves the others.
pub proof fn law_header_declares(
    front: Seq<Seq<char>>,
    name: Seq<char>,
    rest: Seq<char>,
    other: Seq<char>,
)
    requires
        forall|i: int| 0 <= i < name.len() ==> #[trigger] name[i] != ' ',
        name.len() > 0,
        !text::is_white_space(name[0]),
        rest.len() > 0,
        !text::is_white_space(rest[rest.len() - 1]),
    ensures
        declared(Seq::empty(), other) is None,
        declared(front.push(name + seq![' '] + rest), lowercase(name)) == Some(text::words(rest)),
        other != lowercase(name) ==> declared(front.push(name + seq![' '] + rest), other)
            == declared(front, other),
{
    let piece = name + seq![' '] + rest;
    law_piece_declares(Seq::empty(), name, rest, Seq::empty());
    assert(Seq::<char>::empty() + piece + Seq::<char>::empty() =~= piece);
    assert(front.push(piece).drop_last() =~= front);
}

/// A header of one rule gives its name the words behind it, and no other name any.
pub proof fn law_header_of_one_rule(name: Seq<char>, rest: Seq<char>, other: Seq<char>)
    requires
        forall|i: int| 0 <= i < name.len() ==> #[trigger] name[i] != ' ' && name[i] != ';',
        name.len() > 0,
        !text::is_white_space(name[0]),
        forall|i: int| 0 <= i < rest.len() ==> #[trigger] rest[i] != ';',
        rest.len() > 0,
        !text::is_white_space(rest[rest.len() - 1]),
    ensures
        declared(text::split(name + seq![' '] + rest, ';'), other) == if other == lowercase(name) {
            Some(text::words(rest))
        } else {
            None
        },
{
    let header = name + seq![' '] + rest;
    assert forall|i: int| 0 <= i < header.len() implies #[trigger] header[i] != ';' by {
        if i < name.len() {
            assert(header[i] == name[i]);
        } else if i > name.len() {
            assert(header[i] == rest[i - name.len() - 1]);
        }
    }
    text::law_split(header, ';', Seq::empty());
    law_header_declares(Seq::empty(), name, rest, other);
    assert(Seq::<Seq<char>>::empty().push(header) =~= seq![header]);
}

/// The rule of a name is the first with that name, with its sources in their order, and
/// there is none where no rule has the name.
pub proof fn law_first_rule_counts(ds: Seq<Directive>, name: Seq<char>)
    ensures
        rule(ds, name) is None <==> forall|j: int|
            0 <= j < ds.len() ==> (#[trigger] ds[j]).name@ != name,
        forall|i: int|
            0 <= i < ds.len() && (#[trigger] ds[i]).name@ == name && (forall|j: int|
                0 <= j < i ==> (#[trigger] ds[j]).name@ != name) ==> {
                &&& rule(ds, name) is Some
                &&& rule(ds, name)->0.len() == ds[i].values@.len()
                &&& forall|k: int|
                    0 <= k < ds[i].values@.len() ==> #[trigger] rule(ds, name)->0[k]
                        == ds[i].values@[k]@
            },
{
    if forall|j: int| 0 <= j < ds.len() ==> (#[trigger] ds[j]).name@ != name {
        lemma_no_rule(ds, name);
    } else {
        let k = lemma_first(ds, name);
        lemma_rule(ds, name, k);
    }
    assert forall|i: int|
        0 <= i < ds.len() && (#[trigger] ds[i]).name@ == name && (forall|j: int|
            0 <= j < i ==> (#[trigger] ds[j]).name@ != name) implies {
        &&& rule(ds, name) is Some
        &&& rule(ds, name)->0.len() == ds[i].values@.len()
        &&& forall|k: int|
            0 <= k < ds[i].values@.len() ==> #[trigger] rule(ds, name)->0[k] == ds[i].values@[k]@
    } by {
        lemma_rule(ds, name, i);
    }
}

/// Rules whose names differ have no name twice.
pub proof fn law_no_name_twice(ds: Seq<Directive>, i: int, j: int)
    requires
        names_differ(ds),
        0 <= i < j < ds.len(),
    ensures
        ds[i].name@ != ds[j].name@,
{
}

/// The lower case of an ASCII text has a small letter for each capital one, and
/// everything else as it was.
pub proof fn law_lower_case_of_letters(s: Seq<char>, i: int)
    requires
        0 <= i < s.len(),
    ensures
        ascii_lowercased(s).len() == s.len(),
        65 <= s[i] as u32 <= 90 ==> ascii_lowercased(s)[i] as u32 == s[i] as u32 + 32,
        !(65 <= s[i] as u32 <= 90) ==> ascii_lowercased(s)[i] == s[i],
        is_ascii(s) ==> s[i] as u32 <= 127,
{
}

/// The name of a piece that was read, where it is ASCII, counts in small letters.
pub proof fn law_names_count_in_small_letters(name: Seq<char>, rest: Seq<char>)
    requires
        lowercase_known(name + seq![' '] + rest),
        is_ascii(name),
        forall|i: int| 0 <= i < name.len() ==> #[trigger] name[i] != ' ',
        name.len() > 0,
        !text::is_white_space(name[0]),
        rest.len() > 0,
        !text::is_white_space(rest[rest.len() - 1]),
    ensures
        lowercase(name).len() == name.len(),
        forall|i: int|
            0 <= i < name.len() ==> (#[trigger] lowercase(name)[i]) as u32 == name[i] as u32 + if 65
                <= name[i] as u32 <= 90 {
                32int
            } else {
                0
            },
{
    let piece = name + seq![' '] + rest;
    law_piece_declares(Seq::empty(), name, rest, Seq::empty());
    assert(Seq::<char>::empty() + piece + Seq::<char>::empty() =~= piece);
    assert(lowercase(name) == ascii_lowercased(name));
}

} // verus!
