use vstd::prelude::*;
use vstd::string::*;
use crate::timestamp::{Timestamp, TimeError, fmt_ts, format_timestamp};

verus! {

/// Characters that may stand in a package name or a transaction name: the
/// serialized form quotes such strings verbatim, so the quote, the backslash
/// and line breaks are kept out of them.
pub open spec fn plain_char(c: char) -> bool {
    c != '"' && c != '\\' && c != '\n' && c != '\r'
}

pub open spec fn plain_seq(s: Seq<char>) -> bool {
    forall|k: int| 0 <= k < s.len() ==> plain_char(s[k])
}

/// The mathematical content of a transaction record.
pub ghost struct RecordV {
    pub packages: Seq<Seq<char>>,
    pub name: Option<Seq<char>>,
    pub timestamp: Timestamp,
}

impl RecordV {
    /// A record the store accepts: at least one package, every string made of
    /// plain characters, and an in-range timestamp.
    pub open spec fn wf(self) -> bool {
        &&& self.packages.len() > 0
        &&& forall|k: int| 0 <= k < self.packages.len() ==> plain_seq(#[trigger] self.packages[k])
        &&& self.name matches Some(n) ==> plain_seq(n)
        &&& self.timestamp.wf()
    }
}

/// One unit of package-manager work: the packages it covers, an optional
/// human-assigned label, and the moment it was made.
pub struct TransactionData {
    pub packages: Vec<String>,
    pub name: Option<String>,
    pub timestamp: Timestamp,
}

impl View for TransactionData {
    type V = RecordV;

    open spec fn view(&self) -> RecordV {
        RecordV {
            packages: self.packages@.map_values(|p: String| p@),
            name: match self.name {
                Some(n) => Some(n@),
                None => None,
            },
            timestamp: self.timestamp,
        }
    }
}

impl TransactionData {
    /// Builds a record over `packages` with the optional label `name`,
    /// stamped with the current time. Fails only when the clock's rendering
    /// cannot be re-parsed, which no ordinary clock produces.
    pub fn new(packages: Vec<String>, name: Option<String>) -> (r: Result<TransactionData, TimeError>)
        ensures
            r matches Ok(t) ==> {
                &&& t@.packages == packages@.map_values(|p: String| p@)
                &&& t@.name == (match name {
                    Some(n) => Some::<Seq<char>>(n@),
                    None => None::<Seq<char>>,
                })
                &&& t@.timestamp.wf()
            },
    {
        match Timestamp::now() {
            Ok(ts) => Ok(TransactionData { packages, name, timestamp: ts }),
            Err(e) => Err(e),
        }
    }

    /// Whether this record is one the store accepts.
    pub fn is_wf(&self) -> (b: bool)
        ensures
            b == self@.wf(),
    {
        if self.packages.len() == 0 {
            proof {
                assert(self@.packages.len() == 0);
            }
            return false;
        }
        let mut k: usize = 0;
        while k < self.packages.len()
            invariant
                k <= self.packages.len(),
                self@.packages.len() == self.packages.len(),
                forall|j: int| 0 <= j < k ==> plain_seq(#[trigger] self@.packages[j]),
            decreases self.packages.len() - k,
        {
            if !is_plain(&self.packages[k]) {
                proof {
                    assert(self@.packages[k as int] == self.packages@[k as int]@);
                }
                return false;
            }
            proof {
                assert(self@.packages[k as int] == self.packages@[k as int]@);
            }
            k += 1;
        }
        match &self.name {
            Some(n) => {
                if !is_plain(n) {
                    return false;
                }
            },
            None => {},
        }
        let t = &self.timestamp;
        1 <= t.month && t.month <= 12 && 1 <= t.day && t.day <= 31 && t.year <= 9999
            && t.hour <= 23 && t.minute <= 59 && t.second <= 59 && t.micro <= 999_999
    }
}

/// Whether every character of `s` is plain.
fn is_plain(s: &String) -> (b: bool)
    ensures
        b == plain_seq(s@),
{
    let st = s.as_str();
    let n = st.unicode_len();
    let mut k: usize = 0;
    while k < n
        invariant
            k <= n,
            n == st@.len(),
            st@ == s@,
            forall|j: int| 0 <= j < k ==> plain_char(st@[j]),
        decreases n - k,
    {
        let c = st.get_char(k);
        if c == '"' || c == '\\' || c == '\n' || c == '\r' {
            return false;
        }
        k += 1;
    }
    true
}

pub open spec fn header_str() -> Seq<char> {
    seq!['[', '[', 't', 'r', 'a', 'n', 's', 'a', 'c', 't', 'i', 'o', 'n', ']', ']', '\n']
}

pub open spec fn packages_prefix() -> Seq<char> {
    seq!['p', 'a', 'c', 'k', 'a', 'g', 'e', 's', ' ', '=', ' ', '[']
}

pub open spec fn packages_suffix() -> Seq<char> {
    seq![']', '\n']
}

pub open spec fn name_prefix() -> Seq<char> {
    seq!['n', 'a', 'm', 'e', ' ', '=', ' ']
}

pub open spec fn timestamp_prefix() -> Seq<char> {
    seq!['t', 'i', 'm', 'e', 's', 't', 'a', 'm', 'p', ' ', '=', ' ']
}

pub open spec fn sep_str() -> Seq<char> {
    seq![',', ' ']
}

/// `s` between double quotes.
pub open spec fn quoted(s: Seq<char>) -> Seq<char> {
    seq!['"'] + s + seq!['"']
}

/// The quoted package names, separated by comma-space.
pub open spec fn ser_pkg_list(ps: Seq<Seq<char>>) -> Seq<char>
    decreases ps.len(),
{
    if ps.len() == 0 {
        Seq::empty()
    } else if ps.len() == 1 {
        quoted(ps[0])
    } else {
        ser_pkg_list(ps.drop_last()) + sep_str() + quoted(ps.last())
    }
}

/// The optional name line.
pub open spec fn ser_name(name: Option<Seq<char>>) -> Seq<char> {
    match name {
        Some(n) => name_prefix() + quoted(n) + seq!['\n'],
        None => Seq::empty(),
    }
}

/// The serialized form of one record: a `[[transaction]]` header line, a
/// `packages` line, the `name` line when a name is present, and a
/// `timestamp` line. Each record is self-delimiting, so records can be
/// appended to one file one after the other.
pub open spec fn ser_record(r: RecordV) -> Seq<char> {
    header_str() + packages_prefix() + ser_pkg_list(r.packages) + packages_suffix()
        + ser_name(r.name) + timestamp_prefix() + fmt_ts(r.timestamp) + seq!['\n']
}

/// Appends `p` between double quotes.
fn append_quoted(out: &mut String, p: &String)
    ensures
        final(out)@ == old(out)@ + quoted(p@),
{
    proof {
        reveal_strlit("\"");
    }
    out.append("\"");
    out.append(p.as_str());
    out.append("\"");
    proof {
        assert(("\"")@ =~= seq!['"']);
        assert(final(out)@ =~= old(out)@ + quoted(p@));
    }
}

/// Renders `r` in its serialized form.
pub fn serialize_record(r: &TransactionData) -> (out: String)
    requires
        r@.wf(),
    ensures
        out@ == ser_record(r@),
{
    proof {
        reveal_strlit("[[transaction]]\n");
        reveal_strlit("packages = [");
        reveal_strlit("]\n");
        reveal_strlit("name = ");
        reveal_strlit("timestamp = ");
        reveal_strlit(", ");
        reveal_strlit("\n");
    }
    let ghost ps = r@.packages;
    let mut out = String::new();
    out.append("[[transaction]]\n");
    out.append("packages = [");
    proof {
        assert((", ")@ =~= sep_str());
        assert(out@ =~= header_str() + packages_prefix());
    }
    append_quoted(&mut out, &r.packages[0]);
    proof {
        assert(r@.packages[0] == r.packages@[0]@);
        assert(ps.take(1) =~= seq![ps[0]]);
        assert(out@ =~= header_str() + packages_prefix() + ser_pkg_list(ps.take(1)));
    }
    let mut k: usize = 1;
    while k < r.packages.len()
        invariant
            1 <= k <= r.packages.len(),
            ps == r@.packages,
            ps.len() == r.packages.len(),
            forall|j: int| 0 <= j < ps.len() ==> ps[j] == #[trigger] r.packages@[j]@,
            out@ == header_str() + packages_prefix() + ser_pkg_list(ps.take(k as int)),
            (", ")@ == sep_str(),
        decreases r.packages.len() - k,
    {
        out.append(", ");
        append_quoted(&mut out, &r.packages[k]);
        proof {
            assert(ps.take(k + 1).drop_last() =~= ps.take(k as int));
            assert(ps.take(k + 1).last() == ps[k as int]);
            assert(ser_pkg_list(ps.take(k + 1)) == ser_pkg_list(ps.take(k as int)) + sep_str()
                + quoted(ps[k as int]));
            assert(out@ =~= header_str() + packages_prefix() + ser_pkg_list(ps.take(k + 1)));
        }
        k += 1;
    }
    proof {
        assert(ps.take(ps.len() as int) =~= ps);
    }
    out.append("]\n");
    match &r.name {
        Some(n) => {
            out.append("name = ");
            append_quoted(&mut out, n);
            out.append("\n");
            proof {
                assert(("]\n")@ =~= packages_suffix());
                assert(("name = ")@ =~= name_prefix());
                assert(("\n")@ =~= seq!['\n']);
                assert(out@ =~= header_str() + packages_prefix() + ser_pkg_list(ps)
                    + packages_suffix() + ser_name(r@.name));
            }
        },
        None => {
            proof {
                assert(("]\n")@ =~= packages_suffix());
                assert(out@ =~= header_str() + packages_prefix() + ser_pkg_list(ps)
                    + packages_suffix() + ser_name(r@.name));
            }
        },
    }
    out.append("timestamp = ");
    let tss = format_timestamp(&r.timestamp);
    out.append(tss.as_str());
    out.append("\n");
    proof {
        assert(("timestamp = ")@ =~= timestamp_prefix());
        assert(("\n")@ =~= seq!['\n']);
        assert(out@ =~= ser_record(r@));
    }
    out
}

/// Whether the characters of `s` from `i` on begin with `p`.
pub open spec fn prefix_at(s: Seq<char>, i: int, p: Seq<char>) -> bool {
    0 <= i && i + p.len() <= s.len() && s.subrange(i, i + p.len()) == p
}

/// The distance from `i` to the next double quote, if there is one.
pub open spec fn quote_dist(s: Seq<char>, i: int) -> Option<nat>
    decreases s.len() - i,
{
    if i < 0 || i >= s.len() {
        None
    } else if s[i] == '"' {
        Some(0 as nat)
    } else {
        match quote_dist(s, i + 1) {
            Some(d) => Some((d + 1) as nat),
            None => None,
        }
    }
}

/// A quoted string starting at `i`: its content and how many characters it
/// occupies, quotes included.
pub open spec fn parse_quoted(s: Seq<char>, i: int) -> Option<(Seq<char>, nat)> {
    if 0 <= i && i < s.len() && s[i] == '"' {
        match quote_dist(s, i + 1) {
            Some(d) => Some((s.subrange(i + 1, i + 1 + d), (d + 2) as nat)),
            None => None,
        }
    } else {
        None
    }
}

/// One or more quoted strings separated by comma-space, starting at `i`.
pub open spec fn parse_pkg_items(s: Seq<char>, i: int) -> Option<(Seq<Seq<char>>, nat)>
    decreases s.len() - i,
{
    if i < 0 || i >= s.len() {
        None
    } else {
        match parse_quoted(s, i) {
            None => None,
            Some((p, n)) => if prefix_at(s, i + n, sep_str()) {
                match parse_pkg_items(s, i + n + 2) {
                    Some((ps, m)) => Some((seq![p] + ps, (n + 2 + m) as nat)),
                    None => None,
                }
            } else {
                Some((seq![p], n))
            },
        }
    }
}

/// The timestamp line starting at `k`: the `timestamp = ` key, the fixed
/// 26-character rendering, and a line break.
pub open spec fn parse_ts_line(s: Seq<char>, k: int) -> Option<Timestamp> {
    if prefix_at(s, k, timestamp_prefix()) && k + 38 < s.len() && s[k + 38] == '\n' {
        crate::timestamp::parse_ts_at(s, k + 12)
    } else {
        None
    }
}

/// One serialized record starting at `i`: its content and how many
/// characters it occupies.
pub open spec fn parse_record_at(s: Seq<char>, i: int) -> Option<(RecordV, nat)> {
    if prefix_at(s, i, header_str()) && prefix_at(s, i + 16, packages_prefix()) {
        match parse_pkg_items(s, i + 28) {
            None => None,
            Some((ps, n)) => {
                let i2 = i + 28 + n;
                if prefix_at(s, i2, packages_suffix()) {
                    let i3 = i2 + 2;
                    if prefix_at(s, i3, name_prefix()) {
                        match parse_quoted(s, i3 + 7) {
                            None => None,
                            Some((nm, q)) => {
                                let i4 = i3 + 7 + q;
                                if i4 < s.len() && s[i4] == '\n' {
                                    match parse_ts_line(s, i4 + 1) {
                                        Some(t) => Some(
                                            (
                                                RecordV {
                                                    packages: ps,
                                                    name: Some(nm),
                                                    timestamp: t,
                                                },
                                                (i4 + 40 - i) as nat,
                                            ),
                                        ),
                                        None => None,
                                    }
                                } else {
                                    None
                                }
                            },
                        }
                    } else {
                        match parse_ts_line(s, i3) {
                            Some(t) => Some(
                                (
                                    RecordV { packages: ps, name: None, timestamp: t },
                                    (i3 + 39 - i) as nat,
                                ),
                            ),
                            None => None,
                        }
                    }
                } else {
                    None
                }
            },
        }
    } else {
        None
    }
}

/// Splitting a known window of `s` at a concatenation boundary.
pub(crate) proof fn lemma_split(s: Seq<char>, i: int, a: Seq<char>, b: Seq<char>)
    requires
        0 <= i,
        i + a.len() + b.len() <= s.len(),
        s.subrange(i, i + a.len() + b.len()) == a + b,
    ensures
        prefix_at(s, i, a),
        s.subrange(i + a.len(), i + a.len() + b.len()) == b,
{
    let l = a.len() + b.len();
    assert forall|j: int| 0 <= j < a.len() implies s.subrange(i, i + a.len())[j] == a[j] by {
        assert(s.subrange(i, i + l)[j] == s[i + j]);
        assert(s.subrange(i, i + a.len())[j] == s[i + j]);
        assert((a + b)[j] == a[j]);
    }
    assert(s.subrange(i, i + a.len()) =~= a);
    assert forall|j: int| 0 <= j < b.len() implies s.subrange(i + a.len(), i + l)[j] == b[j] by {
        assert(s.subrange(i, i + l)[a.len() + j] == s[i + a.len() + j]);
        assert(s.subrange(i + a.len(), i + l)[j] == s[i + a.len() + j]);
        assert((a + b)[a.len() + j] == b[j]);
    }
    assert(s.subrange(i + a.len(), i + l) =~= b);
}

proof fn lemma_quote_dist_found(s: Seq<char>, i: int, k: int)
    requires
        0 <= i,
        0 <= k,
        i + k < s.len(),
        forall|j: int| i <= j < i + k ==> s[j] != '"',
        s[i + k] == '"',
    ensures
        quote_dist(s, i) == Some(k as nat),
    decreases k,
{
    if k > 0 {
        lemma_quote_dist_found(s, i + 1, k - 1);
    }
}

proof fn lemma_parse_quoted(s: Seq<char>, i: int, p: Seq<char>)
    requires
        plain_seq(p),
        0 <= i,
        i + p.len() + 2 <= s.len(),
        s.subrange(i, i + p.len() + 2) == quoted(p),
    ensures
        parse_quoted(s, i) == Some((p, (p.len() + 2) as nat)),
{
    assert(s[i] == '"') by {
        assert(s.subrange(i, i + p.len() + 2)[0] == s[i]);
        assert(quoted(p)[0] == '"');
    }
    assert(s[i + 1 + p.len()] == '"') by {
        assert(s.subrange(i, i + p.len() + 2)[p.len() as int + 1] == s[i + p.len() + 1]);
        assert(quoted(p)[p.len() as int + 1] == '"');
    }
    assert forall|j: int| i + 1 <= j < i + 1 + p.len() implies s[j] != '"' by {
        assert(s.subrange(i, i + p.len() + 2)[j - i] == s[j]);
        assert(quoted(p)[j - i] == p[j - i - 1]);
        assert(plain_char(p[j - i - 1]));
    }
    lemma_quote_dist_found(s, i + 1, p.len() as int);
    assert forall|j: int| 0 <= j < p.len() implies s.subrange(i + 1, i + 1 + p.len())[j] == p[j] by {
        assert(s.subrange(i + 1, i + 1 + p.len())[j] == s[i + 1 + j]);
        assert(s.subrange(i, i + p.len() + 2)[j + 1] == s[i + j + 1]);
        assert(quoted(p)[j + 1] == p[j]);
    }
    assert(s.subrange(i + 1, i + 1 + p.len()) =~= p);
}

/// Unfolds the package list's serialization at its first item.
proof fn lemma_ser_head(ps: Seq<Seq<char>>)
    requires
        ps.len() >= 2,
    ensures
        ser_pkg_list(ps) == quoted(ps[0]) + sep_str() + ser_pkg_list(ps.drop_first()),
    decreases ps.len(),
{
    reveal_with_fuel(ser_pkg_list, 3);
    if ps.len() == 2 {
        assert(ps.drop_last() =~= seq![ps[0]]);
        assert(ps.drop_first() =~= seq![ps[1]]);
        assert(ser_pkg_list(ps) =~= quoted(ps[0]) + sep_str() + ser_pkg_list(ps.drop_first()));
    } else {
        let dl = ps.drop_last();
        lemma_ser_head(dl);
        assert(dl.drop_first() =~= ps.drop_first().drop_last());
        assert(ps.drop_first().last() == ps.last());
        assert(ps.drop_first().len() >= 2);
        assert(ser_pkg_list(ps.drop_first()) == ser_pkg_list(ps.drop_first().drop_last())
            + sep_str() + quoted(ps.drop_first().last()));
        assert(ser_pkg_list(ps) =~= quoted(ps[0]) + sep_str() + ser_pkg_list(ps.drop_first()));
    }
}

/// A serialized package list followed by the closing bracket parses to
/// exactly its items.
proof fn lemma_parse_items(s: Seq<char>, i: int, ps: Seq<Seq<char>>)
    requires
        ps.len() >= 1,
        forall|k: int| 0 <= k < ps.len() ==> plain_seq(#[trigger] ps[k]),
        0 <= i,
        i + ser_pkg_list(ps).len() < s.len(),
        s.subrange(i, i + ser_pkg_list(ps).len()) == ser_pkg_list(ps),
        s[i + ser_pkg_list(ps).len()] == ']',
    ensures
        parse_pkg_items(s, i) == Some((ps, ser_pkg_list(ps).len() as nat)),
    decreases ps.len(),
{
    if ps.len() == 1 {
        assert(ser_pkg_list(ps) == quoted(ps[0]));
        assert(quoted(ps[0]).len() == ps[0].len() + 2);
        lemma_parse_quoted(s, i, ps[0]);
        let n = ps[0].len() + 2;
        assert(!prefix_at(s, i + n, sep_str())) by {
            if prefix_at(s, i + n, sep_str()) {
                assert(s.subrange(i + n, i + n + 2)[0] == s[i + n]);
                assert(s[i + n] == ',');
            }
        }
        assert(seq![ps[0]] =~= ps);
    } else {
        lemma_ser_head(ps);
        let q0 = quoted(ps[0]);
        let rest = ser_pkg_list(ps.drop_first());
        assert(s.subrange(i, i + ser_pkg_list(ps).len()) == q0 + (sep_str() + rest)) by {
            assert(ser_pkg_list(ps) =~= q0 + (sep_str() + rest));
        }
        lemma_split(s, i, q0, sep_str() + rest);
        assert(q0.len() == ps[0].len() + 2);
        lemma_parse_quoted(s, i, ps[0]);
        let n0 = ps[0].len() + 2;
        lemma_split(s, i + n0, sep_str(), rest);
        assert(prefix_at(s, i + n0, sep_str()));
        lemma_parse_items(s, i + n0 + 2, ps.drop_first());
        assert(seq![ps[0]] + ps.drop_first() =~= ps);
    }
}

/// A serialized record embedded in a longer text parses from its own
/// position, whatever stands around it: the parser consumes exactly the
/// record's characters and yields exactly its content.
#[verifier::rlimit(80)]
pub proof fn lemma_parse_ser_record(s: Seq<char>, i: int, r: RecordV)
    requires
        r.wf(),
        0 <= i,
        i + ser_record(r).len() <= s.len(),
        s.subrange(i, i + ser_record(r).len()) == ser_record(r),
    ensures
        parse_record_at(s, i) == Some((r, ser_record(r).len() as nat)),
{
    let h = header_str();
    let pp = packages_prefix();
    let pl = ser_pkg_list(r.packages);
    let sfx = packages_suffix();
    let nm = ser_name(r.name);
    let tp = timestamp_prefix();
    let ft = fmt_ts(r.timestamp);
    let nl = seq!['\n'];
    let tail3 = tp + (ft + nl);
    let tail2 = nm + tail3;
    let tail1 = sfx + tail2;
    let tail0 = pl + tail1;
    assert(ser_record(r) =~= h + (pp + tail0));
    lemma_split(s, i, h, pp + tail0);
    lemma_split(s, i + 16, pp, tail0);
    lemma_split(s, i + 28, pl, tail1);
    assert(s[i + 28 + pl.len()] == ']') by {
        assert(s.subrange(i + 28 + pl.len(), i + 28 + pl.len() + tail1.len())[0] == s[i + 28
            + pl.len()]);
        assert(tail1[0] == ']');
    }
    lemma_parse_items(s, i + 28, r.packages);
    let i2 = i + 28 + pl.len();
    lemma_split(s, i2, sfx, tail2);
    let i3 = i2 + 2;
    match r.name {
        Some(nmv) => {
            assert(nm == name_prefix() + quoted(nmv) + nl);
            assert(tail2 =~= name_prefix() + (quoted(nmv) + (nl + tail3)));
            lemma_split(s, i3, name_prefix(), quoted(nmv) + (nl + tail3));
            lemma_split(s, i3 + 7, quoted(nmv), nl + tail3);
            lemma_parse_quoted(s, i3 + 7, nmv);
            let i4 = i3 + 7 + nmv.len() + 2;
            lemma_split(s, i4, nl, tail3);
            assert(s[i4] == '\n') by {
                assert(s.subrange(i4, i4 + 1)[0] == s[i4]);
            }
            lemma_ts_line(s, i4 + 1, r.timestamp, tail3);
            assert(parse_record_at(s, i) == Some((r, ser_record(r).len() as nat)));
        },
        None => {
            assert(nm =~= Seq::<char>::empty());
            assert(tail2 =~= tail3);
            assert(s[i3] == 't') by {
                assert(s.subrange(i3, i3 + tail3.len())[0] == s[i3]);
                assert(tail3[0] == 't');
            }
            assert(!prefix_at(s, i3, name_prefix())) by {
                if prefix_at(s, i3, name_prefix()) {
                    assert(s.subrange(i3, i3 + 7)[0] == s[i3]);
                    assert(s[i3] == 'n');
                }
            }
            lemma_ts_line(s, i3, r.timestamp, tail3);
            assert(parse_record_at(s, i) == Some((r, ser_record(r).len() as nat)));
        },
    }
}

/// A serialized timestamp line parses to its timestamp.
proof fn lemma_ts_line(s: Seq<char>, k: int, t: Timestamp, tail: Seq<char>)
    requires
        t.wf(),
        0 <= k,
        tail == timestamp_prefix() + (fmt_ts(t) + seq!['\n']),
        k + tail.len() <= s.len(),
        s.subrange(k, k + tail.len()) == tail,
    ensures
        parse_ts_line(s, k) == Some(t),
{
    lemma_split(s, k, timestamp_prefix(), fmt_ts(t) + seq!['\n']);
    lemma_split(s, k + 12, fmt_ts(t), seq!['\n']);
    assert(fmt_ts(t).len() == 26);
    assert(s[k + 38] == '\n') by {
        assert(s.subrange(k + 38, k + 39)[0] == s[k + 38]);
    }
    crate::timestamp::lemma_parse_ts_embed(s, k + 12, t);
}

/// The views of a sequence of strings.
pub open spec fn strs_view(v: Seq<String>) -> Seq<Seq<char>> {
    v.map_values(|p: String| p@)
}

/// The record denoted by the whole of `s`, which must be exactly one
/// serialized record.
pub open spec fn parse_record_full(s: Seq<char>) -> Option<RecordV> {
    match parse_record_at(s, 0) {
        Some((r, n)) => if n == s.len() {
            Some(r)
        } else {
            None
        },
        None => None,
    }
}

/// Whether the characters of `s` from `i` on begin with `p`.
pub fn has_prefix_at(s: &str, i: usize, p: &str) -> (b: bool)
    ensures
        b == prefix_at(s@, i as int, p@),
{
    let n = s.unicode_len();
    let m = p.unicode_len();
    if i > n || m > n - i {
        return false;
    }
    let mut j: usize = 0;
    while j < m
        invariant
            j <= m,
            i + m <= n,
            n == s@.len(),
            m == p@.len(),
            forall|t: int| 0 <= t < j ==> s@[i + t] == p@[t],
        decreases m - j,
    {
        if s.get_char(i + j) != p.get_char(j) {
            proof {
                assert(s@.subrange(i as int, i + m)[j as int] == s@[i + j]);
            }
            return false;
        }
        j += 1;
    }
    proof {
        assert forall|t: int| 0 <= t < m implies s@.subrange(i as int, i + m)[t] == p@[t] by {
            assert(s@.subrange(i as int, i + m)[t] == s@[i + t]);
        }
        assert(s@.subrange(i as int, i + m) =~= p@);
    }
    true
}

proof fn lemma_quote_dist_none(s: Seq<char>, i: int)
    requires
        forall|t: int| i <= t < s.len() ==> s[t] != '"',
    ensures
        quote_dist(s, i) is None,
    decreases s.len() - i,
{
    if 0 <= i && i < s.len() {
        lemma_quote_dist_none(s, i + 1);
    }
}

/// Reads a quoted string starting at `i`: its content and the count of
/// characters it occupies, quotes included.
fn parse_quoted_exec(s: &str, i: usize) -> (r: Option<(String, usize)>)
    ensures
        match r {
            Some((c, n)) => parse_quoted(s@, i as int) == Some((c@, n as nat)) && i + n <= s@.len()
                && n >= 2,
            None => parse_quoted(s@, i as int) is None,
        },
{
    let n = s.unicode_len();
    if i >= n {
        return None;
    }
    if s.get_char(i) != '"' {
        return None;
    }
    let mut j: usize = i + 1;
    while j < n
        invariant
            i + 1 <= j <= n,
            n == s@.len(),
            i < s@.len(),
            s@[i as int] == '"',
            forall|t: int| i + 1 <= t < j ==> s@[t] != '"',
        decreases n - j,
    {
        if s.get_char(j) == '"' {
            let content = String::from_str(s.substring_char(i + 1, j));
            proof {
                lemma_quote_dist_found(s@, i + 1, j - i - 1);
            }
            return Some((content, j + 1 - i));
        }
        j += 1;
    }
    proof {
        lemma_quote_dist_none(s@, i + 1);
    }
    None
}

/// Reads one or more quoted strings separated by comma-space, starting at
/// `i`.
fn parse_items_exec(s: &str, i: usize) -> (r: Option<(Vec<String>, usize)>)
    ensures
        match r {
            Some((ps, n)) => parse_pkg_items(s@, i as int) == Some((strs_view(ps@), n as nat)) && i
                + n <= s@.len(),
            None => parse_pkg_items(s@, i as int) is None,
        },
    decreases s@.len() - i,
{
    proof {
        reveal_strlit(", ");
        assert((", ")@ =~= sep_str());
    }
    let n = s.unicode_len();
    if i >= n {
        return None;
    }
    match parse_quoted_exec(s, i) {
        None => None,
        Some((p, c)) => {
            if has_prefix_at(s, i + c, ", ") {
                match parse_items_exec(s, i + c + 2) {
                    Some((mut ps, m)) => {
                        let ghost tail = ps@;
                        ps.insert(0, p);
                        proof {
                            assert(strs_view(ps@) =~= seq![p@] + strs_view(tail));
                        }
                        Some((ps, c + 2 + m))
                    },
                    None => None,
                }
            } else {
                let mut v: Vec<String> = Vec::new();
                let ghost pv = p@;
                v.push(p);
                proof {
                    assert(strs_view(v@) =~= seq![pv]);
                }
                Some((v, c))
            }
        },
    }
}

/// Reads a timestamp line starting at `k`.
fn parse_ts_line_exec(s: &str, k: usize) -> (r: Option<Timestamp>)
    ensures
        r == parse_ts_line(s@, k as int),
        r matches Some(_) ==> k + 39 <= s@.len(),
{
    proof {
        reveal_strlit("timestamp = ");
        assert(("timestamp = ")@ =~= timestamp_prefix());
    }
    if !has_prefix_at(s, k, "timestamp = ") {
        return None;
    }
    let n = s.unicode_len();
    if n < 39 || k > n - 39 {
        return None;
    }
    if s.get_char(k + 38) != '\n' {
        return None;
    }
    crate::timestamp::parse_timestamp_at(s, k + 12)
}

/// Reads one serialized record starting at `i`: the record and the count of
/// characters it occupies.
pub fn parse_record_exec(s: &str, i: usize) -> (r: Option<(TransactionData, usize)>)
    ensures
        match r {
            Some((t, n)) => parse_record_at(s@, i as int) == Some((t@, n as nat)) && i + n
                <= s@.len() && n > 0,
            None => parse_record_at(s@, i as int) is None,
        },
{
    proof {
        reveal_strlit("[[transaction]]\n");
        reveal_strlit("packages = [");
        reveal_strlit("]\n");
        reveal_strlit("name = ");
        assert(("[[transaction]]\n")@ =~= header_str());
        assert(("packages = [")@ =~= packages_prefix());
        assert(("]\n")@ =~= packages_suffix());
        assert(("name = ")@ =~= name_prefix());
    }
    let n_all = s.unicode_len();
    proof {
        assert(n_all == s@.len());
    }
    if !has_prefix_at(s, i, "[[transaction]]\n") {
        return None;
    }
    if !has_prefix_at(s, i + 16, "packages = [") {
        return None;
    }
    match parse_items_exec(s, i + 28) {
        None => None,
        Some((ps, n)) => {
            let i2 = i + 28 + n;
            if !has_prefix_at(s, i2, "]\n") {
                return None;
            }
            let i3 = i2 + 2;
            if has_prefix_at(s, i3, "name = ") {
                match parse_quoted_exec(s, i3 + 7) {
                    None => None,
                    Some((nm, q)) => {
                        let i4 = i3 + 7 + q;
                        if i4 < s.unicode_len() && s.get_char(i4) == '\n' {
                            match parse_ts_line_exec(s, i4 + 1) {
                                Some(t) => Some(
                                    (
                                        TransactionData {
                                            packages: ps,
                                            name: Some(nm),
                                            timestamp: t,
                                        },
                                        i4 + 40 - i,
                                    ),
                                ),
                                None => None,
                            }
                        } else {
                            None
                        }
                    },
                }
            } else {
                match parse_ts_line_exec(s, i3) {
                    Some(t) => Some(
                        (TransactionData { packages: ps, name: None, timestamp: t }, i3 + 39 - i),
                    ),
                    None => None,
                }
            }
        },
    }
}

/// Reads the whole of `s` as one serialized record.
pub fn deserialize_record(s: &str) -> (r: Option<TransactionData>)
    ensures
        match r {
            Some(t) => parse_record_full(s@) == Some(t@),
            None => parse_record_full(s@) is None,
        },
{
    match parse_record_exec(s, 0) {
        Some((t, n)) => {
            if n == s.unicode_len() {
                Some(t)
            } else {
                None
            }
        },
        None => None,
    }
}

/// Serializing a well-formed record and parsing the result gives back the
/// record: packages in order, the name present exactly when it was present,
/// and the timestamp to the microsecond.
pub proof fn lemma_record_round_trip(r: RecordV)
    requires
        r.wf(),
    ensures
        parse_record_at(ser_record(r), 0) == Some((r, ser_record(r).len() as nat)),
{
    let s = ser_record(r);
    assert(s.subrange(0, s.len() as int) =~= s);
    lemma_parse_ser_record(s, 0, r);
}

} // verus!
