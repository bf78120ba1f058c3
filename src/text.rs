//! Text helpers: typographic refinement, splitting on double brackets and
//! lookup of strings by hash.
use vstd::prelude::*;
use vstd::std_specs::iter::IteratorSpec;

verus! {

/// The offset basis of the 64-bit FNV-1a hash.
pub const FNV_OFFSET_BASIS_64: u64 = 0xcbf29ce484222325;

/// The prime of the 64-bit FNV-1a hash.
pub const FNV_PRIME_64: u64 = 0x100000001B3;

/// The 64-bit FNV-1a hash of a byte sequence: starting from the offset
/// basis, each byte in turn is XORed in and the hash multiplied by the prime,
/// modulo 2^64.
pub open spec fn fnv1a_bytes(bytes: Seq<u8>) -> u64
    decreases bytes.len(),
{
    if bytes.len() == 0 {
        FNV_OFFSET_BASIS_64
    } else {
        let h = fnv1a_bytes(bytes.drop_last()) ^ (bytes.last() as u64);
        ((h as int * FNV_PRIME_64 as int) % (u64::MAX as int + 1)) as u64
    }
}

/// The 64-bit FNV-1a hash of the UTF-8 encoding of a text.
pub open spec fn fnv1a_64(s: Seq<char>) -> u64 {
    fnv1a_bytes(vstd::utf8::encode_utf8(s))
}

/// Relies on const_fnv1a_hash::fnv1a_hash_str_64: the 64-bit FNV-1a hash of
/// the string's UTF-8 bytes (a loop of XOR and wrapping multiply from the
/// offset basis).
#[verifier::external_body]
pub(crate) fn str_hash_64(s: &str) -> (r: u64)
    ensures
        r == fnv1a_64(s@),
{
    const_fnv1a_hash::fnv1a_hash_str_64(s)
}

/// The characters of a string, in order.
pub(crate) fn chars_of(s: &str) -> (r: Vec<char>)
    ensures
        r@ == s@,
{
    broadcast use vstd::string::axiom_spec_iter, vstd::string::next_postcondition;

    let mut out: Vec<char> = Vec::new();
    let mut it = s.chars();
    loop
        invariant
            out@ + it.remaining() == s@,
            it.obeys_prophetic_iter_laws(),
            it.decrease() is Some,
        ensures
            out@ == s@,
        decreases it.decrease()->0,
    {
        let ghost rest = it.remaining();
        match it.next() {
            Some(c) => {
                out.push(c);
                assert(out@ + it.remaining() =~= s@) by {
                    assert(rest =~= seq![c] + it.remaining());
                }
            },
            None => {
                assert(out@ =~= s@);
                break;
            },
        }
    }
    out
}

/// The text with every run of `n` copies of `c`, taken left to right without
/// overlap, replaced by the single character `r`.
pub open spec fn replace_run(s: Seq<char>, c: char, n: nat, r: char) -> Seq<char>
    decreases s.len(),
{
    if s.len() == 0 {
        s
    } else if n > 0 && starts_with_run(s, c, n) {
        seq![r] + replace_run(s.skip(n as int), c, n, r)
    } else {
        seq![s[0]] + replace_run(s.skip(1), c, n, r)
    }
}

/// `s` begins with `n` copies of `c`.
pub open spec fn starts_with_run(s: Seq<char>, c: char, n: nat) -> bool {
    n <= s.len() && forall|k: int| 0 <= k < n ==> #[trigger] s[k] == c
}

/// Straight quotes turned into curly ones: double quotes alternate between
/// opening and closing, starting with the state `in_double`; every single
/// quote becomes an apostrophe.
pub open spec fn curl_quotes(s: Seq<char>, in_double: bool) -> Seq<char>
    decreases s.len(),
{
    if s.len() == 0 {
        s
    } else if s[0] == '"' {
        seq![if in_double { '\u{201D}' } else { '\u{201C}' }] + curl_quotes(s.skip(1), !in_double)
    } else if s[0] == '\'' {
        seq!['\u{2019}'] + curl_quotes(s.skip(1), in_double)
    } else {
        seq![s[0]] + curl_quotes(s.skip(1), in_double)
    }
}

/// `--` becomes an em dash, `...` an ellipsis, and quotes are curled.
pub open spec fn linguate_spec(s: Seq<char>) -> Seq<char> {
    curl_quotes(replace_run(replace_run(s, '-', 2, '\u{2014}'), '.', 3, '\u{2026}'), false)
}

fn has_run_at(v: &Vec<char>, i: usize, c: char, n: usize) -> (b: bool)
    requires
        i <= v@.len(),
    ensures
        b == starts_with_run(v@.skip(i as int), c, n as nat),
{
    let len = v.len();
    if n > len - i {
        return false;
    }
    let mut k: usize = 0;
    while k < n
        invariant
            len == v@.len(),
            k <= n,
            i + n <= v@.len(),
            i <= v@.len(),
            forall|j: int| 0 <= j < k ==> #[trigger] v@.skip(i as int)[j] == c,
        decreases n - k,
    {
        assert(i + k < v@.len());
        if v[i + k] != c {
            assert(v@.skip(i as int)[k as int] == v@[i + k]);
            return false;
        }
        k = k + 1;
    }
    true
}

fn replace_run_exec(v: &Vec<char>, c: char, n: usize, r: char) -> (out: Vec<char>)
    requires
        n > 0,
    ensures
        out@ == replace_run(v@, c, n as nat, r),
{
    let mut out: Vec<char> = Vec::new();
    let mut i: usize = 0;
    assert(v@.skip(0) =~= v@);
    assert(out@ + replace_run(v@, c, n as nat, r) =~= replace_run(v@, c, n as nat, r));
    while i < v.len()
        invariant
            n > 0,
            i <= v@.len(),
            out@ + replace_run(v@.skip(i as int), c, n as nat, r) == replace_run(v@, c, n as nat, r),
        decreases v@.len() - i,
    {
        let ghost rest = v@.skip(i as int);
        if has_run_at(v, i, c, n) {
            assert(rest.skip(n as int) =~= v@.skip(i + n));
            assert(out@.push(r) + replace_run(v@.skip(i + n), c, n as nat, r) =~= out@ + (seq![r]
                + replace_run(rest.skip(n as int), c, n as nat, r)));
            out.push(r);
            i = i + n;
        } else {
            assert(rest.skip(1) =~= v@.skip(i + 1));
            assert(out@.push(v@[i as int]) + replace_run(v@.skip(i + 1), c, n as nat, r) =~= out@
                + (seq![rest[0]] + replace_run(rest.skip(1), c, n as nat, r)));
            out.push(v[i]);
            i = i + 1;
        }
    }
    assert(v@.skip(i as int) =~= Seq::<char>::empty());
    assert(out@ + Seq::<char>::empty() =~= out@);
    out
}

/// Refines the typography of a text: `--` becomes an em dash, `...` an
/// ellipsis, straight double quotes become alternating curly quotes and
/// straight single quotes become apostrophes.
pub fn linguate(text: &str) -> (r: String)
    ensures
        r@ == linguate_spec(text@),
{
    let chars = chars_of(text);
    let dashed = replace_run_exec(&chars, '-', 2, '\u{2014}');
    let dotted = replace_run_exec(&dashed, '.', 3, '\u{2026}');
    let mut out: Vec<char> = Vec::new();
    let mut in_double = false;
    let mut i: usize = 0;
    assert(dotted@.skip(0) =~= dotted@);
    assert(out@ + curl_quotes(dotted@, false) =~= curl_quotes(dotted@, false));
    while i < dotted.len()
        invariant
            i <= dotted@.len(),
            out@ + curl_quotes(dotted@.skip(i as int), in_double) == curl_quotes(dotted@, false),
        decreases dotted@.len() - i,
    {
        let ghost rest = dotted@.skip(i as int);
        let ghost before = out@;
        let ghost d = in_double;
        let c = dotted[i];
        assert(rest.skip(1) =~= dotted@.skip(i + 1));
        assert(rest[0] == c);
        let x = if c == '"' {
            if in_double { '\u{201D}' } else { '\u{201C}' }
        } else if c == '\'' {
            '\u{2019}'
        } else {
            c
        };
        if c == '"' {
            in_double = !in_double;
        }
        out.push(x);
        assert(curl_quotes(rest, d) == seq![x] + curl_quotes(dotted@.skip(i + 1), in_double));
        assert(out@ + curl_quotes(dotted@.skip(i + 1), in_double) =~= before + (seq![x]
            + curl_quotes(dotted@.skip(i + 1), in_double)));
        i = i + 1;
    }
    assert(dotted@.skip(i as int) =~= Seq::<char>::empty());
    assert(out@ + Seq::<char>::empty() =~= out@);
    string_from(&out)
}

/// The pieces of a text split at `[[` and `]]`: the text before, between
/// and after the markers, in order (pieces at odd positions were inside
/// brackets). State: whether a `[[` is open, the piece being read, and the
/// pieces read so far; a trailing empty piece is dropped.
pub open spec fn split_braced_from(s: Seq<char>, inside: bool, buf: Seq<char>, acc: Seq<Seq<char>>) -> Seq<Seq<char>>
    decreases s.len(),
{
    if s.len() == 0 {
        if buf.len() > 0 {
            acc.push(buf)
        } else {
            acc
        }
    } else if !inside && s.len() >= 2 && s[0] == '[' && s[1] == '[' {
        split_braced_from(s.skip(2), true, Seq::empty(), acc.push(buf))
    } else if inside && s.len() >= 2 && s[0] == ']' && s[1] == ']' {
        split_braced_from(s.skip(2), false, Seq::empty(), acc.push(buf))
    } else {
        split_braced_from(s.skip(1), inside, buf.push(s[0]), acc)
    }
}

/// The pieces of a text split at `[[` and `]]`.
pub open spec fn split_braced_spec(s: Seq<char>) -> Seq<Seq<char>> {
    split_braced_from(s, false, Seq::empty(), Seq::empty())
}

/// The marker that follows piece `i`: `[[` after an outside piece, `]]`
/// after a bracketed one.
pub open spec fn marker(i: int) -> Seq<char> {
    if i % 2 == 0 {
        seq!['[', '[']
    } else {
        seq![']', ']']
    }
}

/// Pieces joined again, each followed by its marker but the last.
pub open spec fn rejoin(ps: Seq<Seq<char>>) -> Seq<char>
    decreases ps.len(),
{
    if ps.len() == 0 {
        Seq::empty()
    } else if ps.len() == 1 {
        ps[0]
    } else {
        rejoin(ps.drop_last()) + marker(ps.len() - 2) + ps.last()
    }
}

/// The text read so far: the finished pieces with their markers, then the
/// piece being read.
pub open spec fn read_so_far(acc: Seq<Seq<char>>, buf: Seq<char>) -> Seq<char> {
    if acc.len() == 0 {
        buf
    } else {
        rejoin(acc) + marker(acc.len() - 1) + buf
    }
}

proof fn lemma_split_from_rejoins(s: Seq<char>, inside: bool, buf: Seq<char>, acc: Seq<Seq<char>>)
    requires
        inside == (acc.len() % 2 == 1),
    ensures
        ({
            let r = split_braced_from(s, inside, buf, acc);
            read_so_far(acc, buf) + s == rejoin(r) || (r.len() > 0 && read_so_far(acc, buf) + s == rejoin(r) + marker(
                r.len() - 1,
            ))
        }),
    decreases s.len(),
{
    if s.len() == 0 {
        assert(read_so_far(acc, buf) + s =~= read_so_far(acc, buf));
        if buf.len() > 0 {
            assert(acc.push(buf).drop_last() =~= acc);
        }
    } else if !inside && s.len() >= 2 && s[0] == '[' && s[1] == '[' {
        let acc2 = acc.push(buf);
        assert(acc2.drop_last() =~= acc);
        assert(s.take(2) =~= marker(acc.len() as int));
        assert(read_so_far(acc2, Seq::empty()) + s.skip(2) =~= read_so_far(acc, buf) + s);
        lemma_split_from_rejoins(s.skip(2), true, Seq::empty(), acc2);
    } else if inside && s.len() >= 2 && s[0] == ']' && s[1] == ']' {
        let acc2 = acc.push(buf);
        assert(acc2.drop_last() =~= acc);
        assert(s.take(2) =~= marker(acc.len() as int));
        assert(read_so_far(acc2, Seq::empty()) + s.skip(2) =~= read_so_far(acc, buf) + s);
        lemma_split_from_rejoins(s.skip(2), false, Seq::empty(), acc2);
    } else {
        assert(read_so_far(acc, buf.push(s[0])) + s.skip(1) =~= read_so_far(acc, buf) + s);
        lemma_split_from_rejoins(s.skip(1), inside, buf.push(s[0]), acc);
    }
}

/// The pieces are the text with its markers removed: joined again with
/// `[[` after each even piece and `]]` after each odd one, they give the
/// text back, with one more marker at the end when the text ends with one.
pub proof fn lemma_split_braced_rejoins(s: Seq<char>)
    ensures
        ({
            let r = split_braced_spec(s);
            s == rejoin(r) || (r.len() > 0 && s == rejoin(r) + marker(r.len() - 1))
        }),
{
    lemma_split_from_rejoins(s, false, Seq::empty(), Seq::empty());
    assert(read_so_far(Seq::empty(), Seq::empty()) + s =~= s);
}

/// The texts of a list of strings.
pub open spec fn texts(v: Seq<String>) -> Seq<Seq<char>> {
    v.map_values(|x: String| x@)
}

/// Relies on `String::from_iter` over characters: the string holding them
/// in order.
#[verifier::external_body]
pub(crate) fn string_from(v: &Vec<char>) -> (r: String)
    ensures
        r@ == v@,
{
    String::from_iter(v.iter())
}

/// Splits a text at `[[` and `]]` markers: even pieces were outside the
/// brackets, odd pieces inside.
pub fn split_braced(s: &str) -> (r: Vec<String>)
    ensures
        texts(r@) == split_braced_spec(s@),
        s@ == rejoin(texts(r@)) || (r@.len() > 0 && s@ == rejoin(texts(r@)) + marker(r@.len() - 1)),
{
    proof {
        lemma_split_braced_rejoins(s@);
    }
    let cs = chars_of(s);
    let mut result: Vec<String> = Vec::new();
    let mut buf: Vec<char> = Vec::new();
    let mut inside = false;
    let mut i: usize = 0;
    assert(cs@.skip(0) =~= cs@);
    assert(texts(result@) =~= Seq::<Seq<char>>::empty());
    while i < cs.len()
        invariant
            i <= cs@.len(),
            split_braced_from(cs@.skip(i as int), inside, buf@, texts(result@)) == split_braced_spec(s@),
            cs@ == s@,
        decreases cs@.len() - i,
    {
        let ghost rest = cs@.skip(i as int);
        let c = cs[i];
        let paired = i + 1 < cs.len();
        if !inside && c == '[' && paired && cs[i + 1] == '[' {
            let ghost before = texts(result@);
            let piece = string_from(&buf);
            result.push(piece);
            buf = Vec::new();
            inside = true;
            proof {
                assert(rest.skip(2) =~= cs@.skip(i + 2));
                assert(texts(result@) =~= before.push(piece@));
            }
            i = i + 2;
        } else if inside && c == ']' && paired && cs[i + 1] == ']' {
            let ghost before = texts(result@);
            let piece = string_from(&buf);
            result.push(piece);
            buf = Vec::new();
            inside = false;
            proof {
                assert(rest.skip(2) =~= cs@.skip(i + 2));
                assert(texts(result@) =~= before.push(piece@));
            }
            i = i + 2;
        } else {
            proof {
                assert(rest.skip(1) =~= cs@.skip(i + 1));
                assert(rest[0] == c);
            }
            buf.push(c);
            i = i + 1;
        }
    }
    assert(cs@.skip(i as int) =~= Seq::<char>::empty());
    if buf.len() > 0 {
        let ghost before = texts(result@);
        let piece = string_from(&buf);
        result.push(piece);
        assert(texts(result@) =~= before.push(piece@));
    }
    result
}

/// The position of the first hash equal to `target`.
pub fn first_match(hashes: &Vec<u64>, target: u64) -> (r: Option<usize>)
    ensures
        match r {
            Some(i) => i < hashes@.len() && hashes@[i as int] == target && forall|j: int|
                0 <= j < i ==> #[trigger] hashes@[j] != target,
            None => forall|j: int| 0 <= j < hashes@.len() ==> #[trigger] hashes@[j] != target,
        },
{
    let mut i: usize = 0;
    while i < hashes.len()
        invariant
            i <= hashes@.len(),
            forall|j: int| 0 <= j < i ==> #[trigger] hashes@[j] != target,
        decreases hashes@.len() - i,
    {
        if hashes[i] == target {
            return Some(i);
        }
        i = i + 1;
    }
    None
}

/// The first string whose 64-bit FNV-1a hash is `target`.
pub fn find_hash_match(strings: &Vec<String>, target: u64) -> (r: Option<&String>)
    ensures
        match r {
            Some(found) => exists|i: int|
                0 <= i < strings@.len() && strings@[i] == *found && fnv1a_64(strings@[i]@) == target && forall|j: int|
                    0 <= j < i ==> fnv1a_64(#[trigger] strings@[j]@) != target,
            None => forall|j: int| 0 <= j < strings@.len() ==> fnv1a_64(#[trigger] strings@[j]@) != target,
        },
{
    let mut hashes: Vec<u64> = Vec::new();
    let mut i: usize = 0;
    while i < strings.len()
        invariant
            i <= strings@.len(),
            hashes@.len() == i,
            forall|j: int| 0 <= j < i ==> #[trigger] hashes@[j] == fnv1a_64(strings@[j]@),
        decreases strings@.len() - i,
    {
        hashes.push(str_hash_64(strings[i].as_str()));
        i = i + 1;
    }
    match first_match(&hashes, target) {
        Some(k) => {
            assert(hashes@[k as int] == fnv1a_64(strings@[k as int]@));
            assert forall|j: int| 0 <= j < k implies fnv1a_64(#[trigger] strings@[j]@) != target by {
                assert(hashes@[j] == fnv1a_64(strings@[j]@));
            }
            Some(&strings[k])
        },
        None => {
            assert forall|j: int| 0 <= j < strings@.len() implies fnv1a_64(#[trigger] strings@[j]@) != target by {
                assert(hashes@[j] == fnv1a_64(strings@[j]@));
            }
            None
        },
    }
}

/// A character with the Unicode `White_Space` property, as
/// `char::is_whitespace` documents it.
pub open spec fn is_space(c: char) -> bool {
    ('\u{9}' <= c && c <= '\u{D}') || c == ' ' || c == '\u{85}' || c == '\u{A0}' || c == '\u{1680}'
        || ('\u{2000}' <= c && c <= '\u{200A}') || c == '\u{2028}' || c == '\u{2029}' || c == '\u{202F}'
        || c == '\u{205F}' || c == '\u{3000}'
}

fn space(c: char) -> (r: bool)
    ensures
        r == is_space(c),
{
    ('\u{9}' <= c && c <= '\u{D}') || c == ' ' || c == '\u{85}' || c == '\u{A0}' || c == '\u{1680}'
        || ('\u{2000}' <= c && c <= '\u{200A}') || c == '\u{2028}' || c == '\u{2029}' || c == '\u{202F}'
        || c == '\u{205F}' || c == '\u{3000}'
}

/// The text without leading white space.
pub open spec fn trim_start(s: Seq<char>) -> Seq<char>
    decreases s.len(),
{
    if s.len() > 0 && is_space(s[0]) {
        trim_start(s.skip(1))
    } else {
        s
    }
}

/// The text without trailing white space.
pub open spec fn trim_end(s: Seq<char>) -> Seq<char>
    decreases s.len(),
{
    if s.len() > 0 && is_space(s.last()) {
        trim_end(s.drop_last())
    } else {
        s
    }
}

/// The text without white space at either end.
pub open spec fn trim(s: Seq<char>) -> Seq<char> {
    trim_end(trim_start(s))
}

/// The lines of a text, split at each `\n`; a final `\n` ends the last line
/// rather than starting an empty one. State: the line being read and the
/// lines read so far.
pub open spec fn lines_from(s: Seq<char>, cur: Seq<char>, acc: Seq<Seq<char>>) -> Seq<Seq<char>>
    decreases s.len(),
{
    if s.len() == 0 {
        if cur.len() > 0 {
            acc.push(cur)
        } else {
            acc
        }
    } else if s[0] == '\n' {
        lines_from(s.skip(1), Seq::empty(), acc.push(cur))
    } else {
        lines_from(s.skip(1), cur.push(s[0]), acc)
    }
}

/// The index of the first non-empty line, or 0.
pub open spec fn first_filled(ls: Seq<Seq<char>>) -> int {
    if exists|i: int| 0 <= i < ls.len() && #[trigger] ls[i].len() > 0 {
        choose|i: int| 0 <= i < ls.len() && #[trigger] ls[i].len() > 0 && forall|j: int| 0 <= j < i ==> #[trigger] ls[j].len() == 0
    } else {
        0
    }
}

/// The index of the last non-empty line, or 0.
pub open spec fn last_filled(ls: Seq<Seq<char>>) -> int {
    if exists|i: int| 0 <= i < ls.len() && #[trigger] ls[i].len() > 0 {
        choose|i: int| 0 <= i < ls.len() && #[trigger] ls[i].len() > 0 && forall|j: int| i < j < ls.len() ==> #[trigger] ls[j].len() == 0
    } else {
        0
    }
}

/// Lines joined with `\n` between them.
pub open spec fn join_lines(ls: Seq<Seq<char>>) -> Seq<char>
    decreases ls.len(),
{
    if ls.len() == 0 {
        Seq::empty()
    } else if ls.len() == 1 {
        ls[0]
    } else {
        join_lines(ls.drop_last()) + seq!['\n'] + ls.last()
    }
}

/// The trimmed lines of a text, from its first to its last non-empty one.
pub open spec fn trim_lines_spec(s: Seq<char>) -> Seq<char> {
    let ls = lines_from(s, Seq::empty(), Seq::empty()).map_values(|l: Seq<char>| trim(l));
    join_lines(ls.subrange(first_filled(ls), last_filled(ls) + 1))
}

fn trim_chars(v: &Vec<char>) -> (r: Vec<char>)
    ensures
        r@ == trim(v@),
{
    let mut a: usize = 0;
    assert(v@.skip(0) =~= v@);
    while a < v.len() && space(v[a])
        invariant
            a <= v@.len(),
            trim_start(v@) == trim_start(v@.skip(a as int)),
        decreases v@.len() - a,
    {
        assert(v@.skip(a as int).skip(1) =~= v@.skip(a + 1));
        a = a + 1;
    }
    let ghost st = v@.skip(a as int);
    assert(trim_start(v@) == st) by {
        if st.len() > 0 {
            assert(st[0] == v@[a as int]);
        }
    }
    let mut b: usize = v.len();
    assert(st.take(st.len() as int) =~= st);
    while b > a && space(v[b - 1])
        invariant
            a <= b <= v@.len(),
            st == v@.skip(a as int),
            trim_end(st) == trim_end(v@.subrange(a as int, b as int)),
        decreases b,
    {
        assert(v@.subrange(a as int, b as int).drop_last() =~= v@.subrange(a as int, b - 1));
        b = b - 1;
    }
    assert(v@.subrange(a as int, b as int) =~= st.take(b - a));
    let mut out: Vec<char> = Vec::new();
    let mut k: usize = a;
    while k < b
        invariant
            a <= k <= b <= v@.len(),
            out@ == v@.subrange(a as int, k as int),
        decreases b - k,
    {
        out.push(v[k]);
        k = k + 1;
        assert(out@ =~= v@.subrange(a as int, k as int));
    }
    proof {
        let t = v@.subrange(a as int, b as int);
        if t.len() > 0 {
            assert(t.last() == v@[b - 1]);
        }
    }
    out
}

fn split_lines(cs: &Vec<char>) -> (lines: Vec<Vec<char>>)
    ensures
        lines@.map_values(|l: Vec<char>| l@) == lines_from(cs@, Seq::empty(), Seq::empty()),
{
    let mut lines: Vec<Vec<char>> = Vec::new();
    let mut cur: Vec<char> = Vec::new();
    let mut i: usize = 0;
    let ghost raw = lines_from(cs@, Seq::empty(), Seq::empty());
    assert(cs@.skip(0) =~= cs@);
    assert(cur@ =~= Seq::<char>::empty());
    assert(lines@.map_values(|l: Vec<char>| l@) =~= Seq::<Seq<char>>::empty());
    while i < cs.len()
        invariant
            i <= cs@.len(),
            lines_from(cs@.skip(i as int), cur@, lines@.map_values(|l: Vec<char>| l@)) == raw,
        decreases cs@.len() - i,
    {
        let ghost rest = cs@.skip(i as int);
        assert(rest.skip(1) =~= cs@.skip(i + 1));
        assert(rest[0] == cs@[i as int]);
        if cs[i] == '\n' {
            let ghost before = lines@.map_values(|l: Vec<char>| l@);
            let ghost line = cur@;
            lines.push(cur);
            cur = Vec::new();
            assert(lines@.map_values(|l: Vec<char>| l@) =~= before.push(line));
        } else {
            cur.push(cs[i]);
        }
        i = i + 1;
    }
    assert(cs@.skip(i as int) =~= Seq::<char>::empty());
    if cur.len() > 0 {
        let ghost before = lines@.map_values(|l: Vec<char>| l@);
        let ghost line = cur@;
        lines.push(cur);
        assert(lines@.map_values(|l: Vec<char>| l@) =~= before.push(line));
    }
    lines
}

fn trim_each(lines: &Vec<Vec<char>>) -> (trimmed: Vec<Vec<char>>)
    ensures
        trimmed@.map_values(|l: Vec<char>| l@) == lines@.map_values(|l: Vec<char>| l@).map_values(|l: Seq<char>| trim(l)),
{
    let ghost raw = lines@.map_values(|l: Vec<char>| l@);
    let mut trimmed: Vec<Vec<char>> = Vec::new();
    let mut j: usize = 0;
    while j < lines.len()
        invariant
            j <= lines@.len(),
            raw == lines@.map_values(|l: Vec<char>| l@),
            trimmed@.len() == j,
            forall|k: int| 0 <= k < j ==> (#[trigger] trimmed@[k])@ == trim(raw[k]),
        decreases lines@.len() - j,
    {
        assert(raw[j as int] == lines@[j as int]@);
        trimmed.push(trim_chars(&lines[j]));
        j = j + 1;
    }
    assert(trimmed@.map_values(|l: Vec<char>| l@) =~= raw.map_values(|l: Seq<char>| trim(l)));
    trimmed
}

/// Trims each line of a text and drops the empty lines before the first and
/// after the last non-empty one.
pub fn trim_lines(s: &str) -> (r: String)
    requires
        s@.len() > 0,
    ensures
        r@ == trim_lines_spec(s@),
{
    let cs = chars_of(s);
    let lines = split_lines(&cs);
    let ghost raw = lines_from(s@, Seq::empty(), Seq::empty());
    let trimmed = trim_each(&lines);
    let ghost ls = raw.map_values(|l: Seq<char>| trim(l));
    proof {
        lemma_lines_nonempty(s@, Seq::empty(), Seq::empty());
    }
    let n = trimmed.len();
    let mut start: usize = 0;
    while start < n && trimmed[start].len() == 0
        invariant
            n == trimmed@.len(),
            n == ls.len(),
            n > 0,
            trimmed@.map_values(|l: Vec<char>| l@) == ls,
            start <= n,
            forall|j: int| 0 <= j < start ==> #[trigger] ls[j].len() == 0,
        decreases n - start,
    {
        assert(ls[start as int] == trimmed@[start as int]@);
        start = start + 1;
    }
    let mut end: usize = n - 1;
    while end > 0 && trimmed[end].len() == 0
        invariant
            n == trimmed@.len(),
            n == ls.len(),
            trimmed@.map_values(|l: Vec<char>| l@) == ls,
            end < n,
            forall|j: int| end < j < n ==> #[trigger] ls[j].len() == 0,
        decreases end,
    {
        assert(ls[end as int] == trimmed@[end as int]@);
        end = end - 1;
    }
    if start == n {
        start = 0;
        proof {
            assert(!exists|i: int| 0 <= i < ls.len() && #[trigger] ls[i].len() > 0);
        }
    } else {
        proof {
            assert(ls[start as int] == trimmed@[start as int]@);
            assert(ls[start as int].len() > 0);
            let c = choose|i: int| 0 <= i < ls.len() && #[trigger] ls[i].len() > 0 && forall|j: int| 0 <= j < i ==> #[trigger] ls[j].len() == 0;
            if c < start {
                assert(ls[c].len() == 0);
            }
            if start < c {
                assert(ls[start as int].len() == 0);
            }
            assert(first_filled(ls) == start);
        }
    }
    proof {
        if exists|i: int| 0 <= i < ls.len() && #[trigger] ls[i].len() > 0 {
            let w = choose|i: int| 0 <= i < ls.len() && #[trigger] ls[i].len() > 0;
            assert(ls[end as int] == trimmed@[end as int]@);
            if end == 0 && ls[0].len() == 0 {
                assert(w > 0 && ls[w].len() == 0);
            }
            assert(ls[end as int].len() > 0);
            let c = choose|i: int| 0 <= i < ls.len() && #[trigger] ls[i].len() > 0 && forall|j: int| i < j < ls.len() ==> #[trigger] ls[j].len() == 0;
            if c < end {
                assert(ls[end as int].len() == 0);
            }
            if end < c {
                assert(ls[c].len() == 0);
            }
            assert(last_filled(ls) == end);
        } else {
            assert(ls[end as int] == trimmed@[end as int]@);
            if end > 0 {
                assert(ls[end as int].len() == 0);
            }
            assert(end == 0 || ls[end as int].len() == 0);
            assert(last_filled(ls) == 0);
            if end != 0 {
                assert(trimmed@[end as int].len() == 0);
            }
        }
    }
    assert(start <= end + 1) by {
        if start > end + 1 {
            assert(ls[end as int] == trimmed@[end as int]@);
        }
    }
    let ghost part = ls.subrange(start as int, end + 1);
    let mut out: Vec<char> = Vec::new();
    let mut k: usize = start;
    assert(ls.subrange(start as int, start as int) =~= Seq::<Seq<char>>::empty());
    while k <= end
        invariant
            start <= k <= end + 1,
            end < n,
            n == ls.len(),
            trimmed@.map_values(|l: Vec<char>| l@) == ls,
            out@ == join_lines(ls.subrange(start as int, k as int)),
        decreases end + 1 - k,
    {
        let line = &trimmed[k];
        assert(line@ == ls[k as int]);
        if k > start {
            out.push('\n');
        }
        let mut c: usize = 0;
        let ghost base = out@;
        while c < line.len()
            invariant
                c <= line@.len(),
                out@ == base + line@.take(c as int),
            decreases line@.len() - c,
        {
            out.push(line[c]);
            c = c + 1;
            assert(out@ =~= base + line@.take(c as int));
        }
        assert(line@.take(c as int) =~= line@);
        proof {
            let prev = ls.subrange(start as int, k as int);
            let next = ls.subrange(start as int, k + 1);
            assert(next.drop_last() =~= prev);
            assert(next.last() == ls[k as int]);
            if k > start {
                assert(out@ =~= join_lines(prev) + seq!['\n'] + ls[k as int]);
            } else {
                assert(next.len() == 1);
                assert(out@ =~= ls[k as int]);
            }
        }
        k = k + 1;
    }
    string_from(&out)
}

proof fn lemma_lines_nonempty(s: Seq<char>, cur: Seq<char>, acc: Seq<Seq<char>>)
    ensures
        lines_from(s, cur, acc).len() >= acc.len(),
        (s.len() > 0 || cur.len() > 0) ==> lines_from(s, cur, acc).len() > acc.len(),
    decreases s.len(),
{
    if s.len() > 0 {
        if s[0] == '\n' {
            lemma_lines_nonempty(s.skip(1), Seq::empty(), acc.push(cur));
        } else {
            lemma_lines_nonempty(s.skip(1), cur.push(s[0]), acc);
        }
    }
}

} // verus!
