//! Filesystem storage provider: path mapping and chunk enumeration.
//!
//! A chunk `(filename, chunk)` lives at `"{root}/{filename}.{chunk}.part"`.
//! Enumeration lists the paths matching `"{root}/{filename}.*.part"`, strips
//! the `.part` suffix of each, takes the last `.`-delimited segment as the
//! chunk index and parses it; an unparseable token reports an internal error
//! (on-disk corruption), never a silent skip. Indices come back sorted
//! ascending. The directory listing and the chunk file reads and writes are
//! backend I/O performed by the caller; everything here is the exact logic
//! those operations are built from.

use vstd::prelude::*;

verus! {

use vstd::string::StrSliceExecFns;
use vstd::string::StringExecFns;

use crate::digits::all_digits;
use crate::digits::dec_int;
use crate::digits::digit_val;
use crate::digits::digits_value;
use crate::digits::i64_to_string;
use crate::digits::is_digit;
use crate::digits::parse_i32;
use crate::digits::parse_i32_str;
use crate::digits::dec_digits;
use crate::digits::digit_char;
use crate::error::Error;
use crate::order::sort_i32;
use crate::order::sorted_ascending;

/// The path of chunk `chunk` of `filename` under the root `dir`:
/// `"{dir}/{filename}.{chunk}.part"`.
pub open spec fn path_of(dir: Seq<char>, filename: Seq<char>, chunk: Seq<char>) -> Seq<char> {
    dir + seq!['/'] + filename + seq!['.'] + chunk + seq!['.', 'p', 'a', 'r', 't']
}

/// `s` without its `.part` suffix, when it has one.
pub open spec fn strip_part(s: Seq<char>) -> Seq<char> {
    if s.len() >= 5 && s.subrange(s.len() - 5, s.len() as int) == seq!['.', 'p', 'a', 'r', 't'] {
        s.take(s.len() - 5)
    } else {
        s
    }
}

/// The last `.`-delimited segment of `s`: what follows the last dot, or all
/// of `s` when it has no dot.
pub open spec fn token_of(s: Seq<char>) -> Seq<char>
    decreases s.len(),
{
    if s.len() == 0 {
        Seq::empty()
    } else if s.last() == '.' {
        Seq::empty()
    } else {
        token_of(s.drop_last()) + seq![s.last()]
    }
}

/// The chunk index encoded in an on-disk path, when its token parses.
pub open spec fn chunk_index_of_path_spec(p: Seq<char>) -> Option<int> {
    parse_i32(token_of(strip_part(p)))
}

/// When the tail of `s` from `k` on is dot-free and `k` sits right after a
/// dot (or at the start), the last segment of `s` is exactly that tail.
proof fn lemma_token_of_suffix(s: Seq<char>, k: int)
    requires
        0 <= k <= s.len(),
        forall|j: int| k <= j < s.len() ==> s[j] != '.',
        k == 0 || s[k - 1] == '.',
    ensures
        token_of(s) =~= s.subrange(k, s.len() as int),
    decreases s.len(),
{
    if s.len() == 0 {
    } else if k == s.len() {
        assert(s.last() == '.');
    } else {
        assert(s.last() != '.');
        lemma_token_of_suffix(s.drop_last(), k);
        assert(token_of(s) =~= s.drop_last().subrange(k, s.len() - 1) + seq![s.last()]);
    }
}

/// Every character of a decimal rendering is a digit, so none is a dot.
proof fn lemma_dec_digits_are_digits(n: nat)
    ensures
        dec_digits(n).len() >= 1,
        all_digits(dec_digits(n)),
    decreases n,
{
    if n >= 10 {
        lemma_dec_digits_are_digits(n / 10);
    }
}

/// Each digit character carries its own value.
proof fn lemma_digit_char_val(d: nat)
    requires
        d < 10,
    ensures
        digit_val(digit_char(d)) == d,
{
    if d == 0 {
        assert('0' as u32 == 48);
    } else if d == 1 {
        assert('1' as u32 == 49);
    } else if d == 2 {
        assert('2' as u32 == 50);
    } else if d == 3 {
        assert('3' as u32 == 51);
    } else if d == 4 {
        assert('4' as u32 == 52);
    } else if d == 5 {
        assert('5' as u32 == 53);
    } else if d == 6 {
        assert('6' as u32 == 54);
    } else if d == 7 {
        assert('7' as u32 == 55);
    } else {
        assert('8' as u32 == 56);
        assert('9' as u32 == 57);
    }
}

/// Parsing the decimal rendering of `n` recovers `n`.
proof fn lemma_digits_value_of_dec(n: nat)
    ensures
        digits_value(dec_digits(n)) == n,
    decreases n,
{
    if n < 10 {
        lemma_digit_char_val(n);
        let s = dec_digits(n);
        assert(s == seq![digit_char(n)]);
        assert(s.len() == 1);
        assert(s.drop_last() =~= Seq::<char>::empty());
        assert(digits_value(s.drop_last()) == 0);
        assert(s.last() == digit_char(n));
        assert(digits_value(s) == digit_val(digit_char(n)));
    } else {
        lemma_digit_char_val(n % 10);
        lemma_digits_value_of_dec(n / 10);
        let s = dec_digits(n);
        assert(s == dec_digits(n / 10) + seq![digit_char(n % 10)]);
        assert(s.drop_last() =~= dec_digits(n / 10));
        assert(s.last() == digit_char(n % 10));
        assert(digits_value(s) == digits_value(dec_digits(n / 10)) * 10 + digit_val(
            digit_char(n % 10),
        ));
        assert(digits_value(s) == (n / 10) * 10 + (n % 10));
        assert(n == (n / 10) * 10 + (n % 10));
    }
}

/// Print/parse round trip for a signed index that fits in an `i32`.
proof fn lemma_parse_dec_int(c: int)
    requires
        i32::MIN <= c <= i32::MAX,
    ensures
        parse_i32(dec_int(c)) == Some(c),
{
    if c < 0 {
        let mag = (-c) as nat;
        lemma_dec_digits_are_digits(mag);
        lemma_digits_value_of_dec(mag);
        let s = dec_int(c);
        assert(s[0] == '-');
        assert(s.drop_first() =~= dec_digits(mag));
    } else {
        lemma_dec_digits_are_digits(c as nat);
        lemma_digits_value_of_dec(c as nat);
        let s = dec_int(c);
        assert(s =~= dec_digits(c as nat));
        assert(is_digit(s[0]));
        assert(s[0] != '-' && s[0] != '+');
    }
}

/// Enumeration inverts the path mapping: the path built for chunk `c` of any
/// filename under any root always yields back exactly `c`, whatever dots the
/// root or the filename contain.
pub proof fn lemma_chunk_path_round_trip(dir: Seq<char>, filename: Seq<char>, c: i32)
    ensures
        chunk_index_of_path_spec(path_of(dir, filename, dec_int(c as int))) == Some(c as int),
{
    let chunk = dec_int(c as int);
    let p = path_of(dir, filename, chunk);
    let base = dir + seq!['/'] + filename + seq!['.'] + chunk;
    assert(p.subrange(p.len() - 5, p.len() as int) =~= seq!['.', 'p', 'a', 'r', 't']);
    assert(strip_part(p) =~= base);
    if c < 0 {
        lemma_dec_digits_are_digits((-(c as int)) as nat);
    } else {
        lemma_dec_digits_are_digits(c as nat);
    }
    let k = base.len() - chunk.len();
    assert(base[k - 1] == '.');
    assert forall|j: int| k <= j < base.len() implies base[j] != '.' by {
        assert(base[j] == chunk[j - k]);
        if c < 0 && j == k {
        } else {
            assert(is_digit(chunk[j - k]));
        }
    }
    lemma_token_of_suffix(base, k);
    assert(token_of(base) =~= chunk);
    lemma_parse_dec_int(c as int);
}

/// The on-disk paths of the chunks `cs` of one file.
pub open spec fn chunk_paths(dir: Seq<char>, filename: Seq<char>, cs: Seq<i32>) -> Seq<Seq<char>> {
    Seq::new(cs.len(), |i: int| path_of(dir, filename, dec_int(cs[i] as int)))
}

/// Enumeration round trip for a whole file: listing the paths written for
/// the chunks `cs` parses back exactly `cs`, path for path.
pub proof fn lemma_enumeration_round_trip(dir: Seq<char>, filename: Seq<char>, cs: Seq<i32>)
    ensures
        all_paths_parse(chunk_paths(dir, filename, cs)),
        parsed_chunks(chunk_paths(dir, filename, cs)) =~= cs,
{
    let paths = chunk_paths(dir, filename, cs);
    assert forall|i: int| 0 <= i < paths.len() implies (#[trigger] chunk_index_of_path_spec(
        paths[i],
    )) == Some(cs[i] as int) by {
        lemma_chunk_path_round_trip(dir, filename, cs[i]);
    }
}

/// Extracts the chunk index from one on-disk path: strips the `.part`
/// suffix, takes the segment after the last remaining dot, and parses it as
/// an `i32`. A token that is not a valid integer reports `InternalError`.
pub fn chunk_index_of_path(path: &str) -> (r: Result<i32, Error>)
    ensures
        chunk_index_of_path_spec(path@) matches Some(v) ==> r matches Ok(c) && c as int == v,
        chunk_index_of_path_spec(path@) is None ==> r == Err::<i32, Error>(Error::InternalError),
{
    let len = path.unicode_len();
    let has_part = len >= 5 && path.get_char(len - 5) == '.' && path.get_char(len - 4) == 'p'
        && path.get_char(len - 3) == 'a' && path.get_char(len - 2) == 'r' && path.get_char(
        len - 1,
    ) == 't';
    let stripped_len = if has_part {
        len - 5
    } else {
        len
    };
    proof {
        if has_part {
            assert(path@.subrange(len - 5, len as int) =~= seq!['.', 'p', 'a', 'r', 't']);
        } else if len >= 5 && path@.subrange(len - 5, len as int) == seq![
            '.',
            'p',
            'a',
            'r',
            't',
        ] {
            assert(path@[len - 5] == '.' && path@[len - 4] == 'p' && path@[len - 3] == 'a'
                && path@[len - 2] == 'r' && path@[len - 1] == 't');
        }
        assert(strip_part(path@) =~= path@.take(stripped_len as int));
    }
    let mut start: usize = stripped_len;
    while start > 0 && path.get_char(start - 1) != '.'
        invariant
            start <= stripped_len <= len,
            len == path@.len(),
            forall|j: int| start <= j < stripped_len ==> path@[j] != '.',
        decreases start,
    {
        start = start - 1;
    }
    proof {
        lemma_token_of_suffix(path@.take(stripped_len as int), start as int);
    }
    let token = path.substring_char(start, stripped_len);
    proof {
        assert(token@ =~= token_of(strip_part(path@)));
    }
    match parse_i32_str(token) {
        Some(c) => Ok(c),
        None => Err(Error::InternalError),
    }
}

/// Whether every listed path carries a parseable chunk index.
pub open spec fn all_paths_parse(paths: Seq<Seq<char>>) -> bool {
    forall|i: int| 0 <= i < paths.len() ==> (#[trigger] chunk_index_of_path_spec(paths[i])) is Some
}

/// The chunk indices encoded in the listed paths, in listing order.
pub open spec fn parsed_chunks(paths: Seq<Seq<char>>) -> Seq<i32> {
    Seq::new(paths.len(), |i: int| (chunk_index_of_path_spec(paths[i])->0) as i32)
}

/// The computing half of `get_uploaded_chunks`: turns the paths found by the
/// backend listing into the ascending list of chunk indices. Fails with
/// `InternalError` exactly when some path's index token is not a valid
/// integer.
pub fn uploaded_chunks_from_paths(paths: &Vec<String>) -> (r: Result<Vec<i32>, Error>)
    ensures
        r is Ok <==> all_paths_parse(paths.deep_view()),
        r matches Ok(v) ==> sorted_ascending(v@) && v@.to_multiset() == parsed_chunks(
            paths.deep_view(),
        ).to_multiset(),
        r is Err ==> r == Err::<Vec<i32>, Error>(Error::InternalError),
{
    let ghost dv = paths.deep_view();
    let mut out: Vec<i32> = Vec::new();
    let mut i: usize = 0;
    while i < paths.len()
        invariant
            i <= paths.len(),
            dv == paths.deep_view(),
            dv.len() == paths@.len(),
            forall|j: int| 0 <= j < paths@.len() ==> #[trigger] dv[j] == paths@[j]@,
            all_paths_parse(dv.take(i as int)),
            out@ =~= parsed_chunks(dv).take(i as int),
        decreases paths.len() - i,
    {
        proof {
            assert(dv[i as int] == paths@[i as int]@);
        }
        match chunk_index_of_path(&paths[i]) {
            Ok(c) => {
                out.push(c);
                proof {
                    assert(dv.take(i + 1).drop_last() =~= dv.take(i as int));
                    assert(parsed_chunks(dv).take(i + 1) =~= parsed_chunks(dv).take(
                        i as int,
                    ).push(c));
                }
            },
            Err(e) => {
                proof {
                    assert(chunk_index_of_path_spec(dv[i as int]) is None);
                    assert(!all_paths_parse(dv));
                }
                return Err(e);
            },
        }
        i = i + 1;
    }
    proof {
        assert(dv.take(dv.len() as int) =~= dv);
        assert(parsed_chunks(dv).take(dv.len() as int) =~= parsed_chunks(dv));
    }
    let sorted = sort_i32(&out);
    Ok(sorted)
}

/// The filesystem storage provider, rooted at a configured data directory.
pub struct FsProvider<'provider> {
    data_dir: &'provider str,
}

impl<'provider> FsProvider<'provider> {
    /// The configured root directory.
    pub closed spec fn data_dir_spec(&self) -> Seq<char> {
        self.data_dir@
    }

    pub fn new(data_dir: &'provider str) -> (r: Self)
        ensures
            r.data_dir_spec() == data_dir@,
    {
        Self { data_dir }
    }

    /// Get full path of a file for the chunk.
    pub fn full_path(&self, filename: &str, chunk: &str) -> (r: String)
        ensures
            r@ == path_of(self.data_dir_spec(), filename@, chunk@),
    {
        proof {
            reveal_strlit("/");
            reveal_strlit(".");
            reveal_strlit(".part");
            assert("/"@ =~= seq!['/']);
            assert("."@ =~= seq!['.']);
            assert(".part"@ =~= seq!['.', 'p', 'a', 'r', 't']);
        }
        let mut s = self.data_dir.to_owned();
        s.append("/");
        s.append(filename);
        s.append(".");
        s.append(chunk);
        s.append(".part");
        s
    }

    /// The on-disk path of one numbered chunk.
    pub fn chunk_path(&self, filename: &str, chunk: i32) -> (r: String)
        ensures
            r@ == path_of(self.data_dir_spec(), filename@, dec_int(chunk as int)),
    {
        let token = i64_to_string(chunk as i64);
        self.full_path(filename, token.as_str())
    }

    /// The listing pattern that matches every chunk of `filename`:
    /// `"{root}/{filename}.*.part"`.
    pub fn glob_pattern(&self, filename: &str) -> (r: String)
        ensures
            r@ == path_of(self.data_dir_spec(), filename@, seq!['*']),
    {
        proof {
            reveal_strlit("*");
            assert("*"@ =~= seq!['*']);
        }
        self.full_path(filename, "*")
    }
}

} // verus!
