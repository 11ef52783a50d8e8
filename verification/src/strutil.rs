//! String utilities: lexicographic ordering by code point, whitespace
//! detection, and sorted key vectors. Rust orders strings by UTF-8 bytes,
//! which coincides with code-point order, so the orderings used here agree
//! with the source ordering of object keys.
use vstd::prelude::*;
use vstd::string::StrSliceExecFns;

verus! {

/// Lexicographic order on character sequences by code point: `a <= b`.
pub open spec fn str_le(a: Seq<char>, b: Seq<char>) -> bool
    decreases a.len(),
{
    if a.len() == 0 {
        true
    } else if b.len() == 0 {
        false
    } else if a[0] != b[0] {
        (a[0] as u32) < (b[0] as u32)
    } else {
        str_le(a.drop_first(), b.drop_first())
    }
}

/// Strict lexicographic order on character sequences.
pub open spec fn str_lt(a: Seq<char>, b: Seq<char>) -> bool {
    str_le(a, b) && a != b
}

/// `str_le` is total.
pub proof fn lemma_str_le_total(a: Seq<char>, b: Seq<char>)
    ensures
        str_le(a, b) || str_le(b, a),
    decreases a.len(),
{
    if a.len() > 0 && b.len() > 0 {
        if a[0] == b[0] {
            lemma_str_le_total(a.drop_first(), b.drop_first());
        } else {
            lemma_char_cast_injective(a[0], b[0]);
        }
    }
}

/// Distinct characters have distinct code points.
proof fn lemma_char_cast_injective(c1: char, c2: char)
    requires
        c1 != c2,
    ensures
        (c1 as u32) != (c2 as u32),
{
}

/// `str_le` both ways means equality.
pub proof fn lemma_str_le_antisym(a: Seq<char>, b: Seq<char>)
    requires
        str_le(a, b),
        str_le(b, a),
    ensures
        a == b,
    decreases a.len(),
{
    if a.len() == 0 {
        assert(b.len() == 0);
        assert(a =~= b);
    } else {
        assert(b.len() > 0);
        assert(a[0] == b[0]);
        lemma_str_le_antisym(a.drop_first(), b.drop_first());
        assert(a =~= Seq::empty().push(a[0]) + a.drop_first());
        assert(b =~= Seq::empty().push(b[0]) + b.drop_first());
    }
}

/// `str_le` is transitive.
pub proof fn lemma_str_le_trans(a: Seq<char>, b: Seq<char>, c: Seq<char>)
    requires
        str_le(a, b),
        str_le(b, c),
    ensures
        str_le(a, c),
    decreases a.len(),
{
    if a.len() > 0 && b.len() > 0 && c.len() > 0 {
        if a[0] == b[0] && b[0] == c[0] {
            lemma_str_le_trans(a.drop_first(), b.drop_first(), c.drop_first());
        }
    }
}

/// Compares two strings in lexicographic code-point order: `a <= b`.
pub fn str_le_exec(a: &str, b: &str) -> (r: bool)
    ensures
        r == str_le(a@, b@),
    decreases a@.len(),
{
    let a_len = a.unicode_len();
    let b_len = b.unicode_len();
    let mut i: usize = 0;
    proof {
        assert(a@.skip(0) =~= a@);
        assert(b@.skip(0) =~= b@);
    }
    while i < a_len && i < b_len
        invariant
            a_len == a@.len(),
            b_len == b@.len(),
            i <= a_len,
            i <= b_len,
            str_le(a@, b@) == str_le(a@.skip(i as int), b@.skip(i as int)),
        decreases a_len - i,
    {
        let ca = a.get_char(i);
        let cb = b.get_char(i);
        if ca != cb {
            proof {
                assert(a@.skip(i as int)[0] == a@[i as int]);
                assert(b@.skip(i as int)[0] == b@[i as int]);
            }
            return (ca as u32) < (cb as u32);
        }
        proof {
            assert(a@.skip(i as int).drop_first() =~= a@.skip(i + 1 as int));
            assert(b@.skip(i as int).drop_first() =~= b@.skip(i + 1 as int));
        }
        i = i + 1;
    }
    proof {
        if i >= a_len {
            assert(a@.skip(i as int).len() == 0);
        } else {
            assert(b@.skip(i as int).len() == 0);
            assert(a@.skip(i as int).len() > 0);
        }
    }
    i >= a_len
}

/// A character with the Unicode white-space property.
pub open spec fn is_ws_char(c: char) -> bool {
    ||| c as u32 == 0x09
    ||| c as u32 == 0x0A
    ||| c as u32 == 0x0B
    ||| c as u32 == 0x0C
    ||| c as u32 == 0x0D
    ||| c as u32 == 0x20
    ||| c as u32 == 0x85
    ||| c as u32 == 0xA0
    ||| c as u32 == 0x1680
    ||| (0x2000 <= c as u32 && c as u32 <= 0x200A)
    ||| c as u32 == 0x2028
    ||| c as u32 == 0x2029
    ||| c as u32 == 0x202F
    ||| c as u32 == 0x205F
    ||| c as u32 == 0x3000
}

/// A sequence of characters that is entirely white space (or empty), so
/// that trimming it leaves nothing.
pub open spec fn is_blank(s: Seq<char>) -> bool {
    forall|i: int| 0 <= i < s.len() ==> is_ws_char(s[i])
}

/// Tests whether a string consists of white space only.
pub fn is_blank_exec(s: &str) -> (r: bool)
    ensures
        r == is_blank(s@),
{
    let len = s.unicode_len();
    let mut i: usize = 0;
    while i < len
        invariant
            len == s@.len(),
            i <= len,
            forall|j: int| 0 <= j < i ==> is_ws_char(s@[j]),
        decreases len - i,
    {
        let c = s.get_char(i);
        let u = c as u32;
        let ws = u == 0x09 || u == 0x0A || u == 0x0B || u == 0x0C || u == 0x0D || u == 0x20 || u
            == 0x85 || u == 0xA0 || u == 0x1680 || (0x2000 <= u && u <= 0x200A) || u == 0x2028 || u
            == 0x2029 || u == 0x202F || u == 0x205F || u == 0x3000;
        if !ws {
            return false;
        }
        i = i + 1;
    }
    true
}

/// The views of a vector of strings.
pub open spec fn string_views(s: Seq<String>) -> Seq<Seq<char>> {
    s.map_values(|k: String| k@)
}

/// The views in `s` are strictly ascending: sorted and duplicate-free.
pub open spec fn strings_strictly_sorted(s: Seq<Seq<char>>) -> bool {
    forall|i: int, j: int| 0 <= i < j < s.len() ==> str_lt(s[i], s[j])
}

/// Sorts string views ascending and removes duplicates: the result is
/// strictly sorted and holds exactly the views of the input.
pub fn sort_dedup_strings(keys: Vec<String>) -> (r: Vec<String>)
    ensures
        strings_strictly_sorted(string_views(r@)),
        forall|k: Seq<char>| string_views(r@).contains(k) == string_views(keys@).contains(k),
{
    let mut out: Vec<String> = Vec::new();
    let mut i: usize = 0;
    proof {
        assert(string_views(out@) =~= Seq::<Seq<char>>::empty());
        assert(string_views(keys@.take(0)) =~= Seq::<Seq<char>>::empty());
    }
    while i < keys.len()
        invariant
            i <= keys@.len(),
            strings_strictly_sorted(string_views(out@)),
            forall|k: Seq<char>|
                string_views(out@).contains(k) == string_views(keys@.take(i as int)).contains(k),
        decreases keys@.len() - i,
    {
        let ghost pre = out@;
        let key = keys[i].clone();
        out = insert_string(out, key);
        proof {
            assert(keys@.take(i + 1 as int) =~= keys@.take(i as int).push(keys@[i as int]));
            let tv = string_views(keys@.take(i + 1 as int));
            let pv = string_views(keys@.take(i as int));
            assert(tv =~= pv.push(keys@[i as int]@));
            assert forall|k: Seq<char>| string_views(out@).contains(k) == tv.contains(k) by {
                assert(tv.contains(k) == (pv.contains(k) || k == keys@[i as int]@)) by {
                    if tv.contains(k) {
                        let w = choose|w: int| 0 <= w < tv.len() && tv[w] == k;
                        if w < pv.len() {
                            assert(pv[w] == k);
                        }
                    }
                    if pv.contains(k) {
                        let w = choose|w: int| 0 <= w < pv.len() && pv[w] == k;
                        assert(tv[w] == k);
                    }
                    if k == keys@[i as int]@ {
                        assert(tv[tv.len() - 1] == k);
                    }
                }
            }
        }
        i = i + 1;
    }
    proof {
        assert(keys@.take(keys@.len() as int) =~= keys@);
    }
    out
}

/// Inserts a string into a strictly sorted vector, keeping it strictly
/// sorted; an already-present view is not duplicated.
fn insert_string(keys: Vec<String>, key: String) -> (r: Vec<String>)
    requires
        strings_strictly_sorted(string_views(keys@)),
    ensures
        strings_strictly_sorted(string_views(r@)),
        forall|k: Seq<char>|
            string_views(r@).contains(k) == (string_views(keys@).contains(k) || k == key@),
{
    let ghost kv = string_views(keys@);
    proof {
        assert(forall|w: int| 0 <= w < keys@.len() ==> kv[w] == #[trigger] keys@[w]@);
    }
    let mut pos: usize = 0;
    while pos < keys.len() && str_le_exec(keys[pos].as_str(), key.as_str())
        invariant
            pos <= keys@.len(),
            kv == string_views(keys@),
            strings_strictly_sorted(kv),
            forall|w: int| 0 <= w < keys@.len() ==> kv[w] == #[trigger] keys@[w]@,
            forall|j: int| 0 <= j < pos ==> str_le(#[trigger] kv[j], key@) && kv[j] != key@,
        decreases keys@.len() - pos,
    {
        if !str_le_exec(key.as_str(), keys[pos].as_str()) {
            pos = pos + 1;
        } else {
            // Equal views both ways: the key is already present.
            proof {
                lemma_str_le_antisym(keys@[pos as int]@, key@);
                assert(kv[pos as int] == key@);
                assert(kv.contains(key@));
            }
            return keys;
        }
    }
    proof {
        if pos < keys@.len() {
            lemma_str_le_total(keys@[pos as int]@, key@);
            assert(str_le(key@, kv[pos as int]));
            assert(key@ != kv[pos as int]) by {
                if key@ == kv[pos as int] {
                    assert(str_le(kv[pos as int], key@));
                }
            }
        }
    }
    let ghost merged = kv.take(pos as int).push(key@) + kv.skip(pos as int);
    let mut out: Vec<String> = Vec::new();
    let mut i: usize = 0;
    proof {
        assert(string_views(out@) =~= merged.take(0));
    }
    while i < pos
        invariant
            pos <= keys@.len(),
            i <= pos,
            kv == string_views(keys@),
            merged == kv.take(pos as int).push(key@) + kv.skip(pos as int),
            forall|w: int| 0 <= w < keys@.len() ==> kv[w] == #[trigger] keys@[w]@,
            out@.len() == i,
            string_views(out@) =~= merged.take(i as int),
        decreases pos - i,
    {
        let ghost pre = out@;
        out.push(keys[i].clone_string());
        proof {
            let pv = string_views(pre);
            assert(forall|w: int| 0 <= w < pre.len() ==> pv[w] == #[trigger] pre[w]@);
            let ov = string_views(out@);
            assert(forall|w: int| 0 <= w < out@.len() ==> ov[w] == #[trigger] out@[w]@);
            assert(ov =~= merged.take(i + 1 as int));
        }
        i = i + 1;
    }
    let ghost before_key = out@;
    out.push(key);
    proof {
        let pv = string_views(before_key);
        assert(forall|w: int| 0 <= w < before_key.len() ==> pv[w] == #[trigger] before_key[w]@);
        let ov = string_views(out@);
        assert(forall|w: int| 0 <= w < out@.len() ==> ov[w] == #[trigger] out@[w]@);
        assert(ov =~= merged.take(pos + 1 as int));
    }
    let mut k: usize = pos;
    while k < keys.len()
        invariant
            pos <= k <= keys@.len(),
            kv == string_views(keys@),
            merged == kv.take(pos as int).push(key@) + kv.skip(pos as int),
            forall|w: int| 0 <= w < keys@.len() ==> kv[w] == #[trigger] keys@[w]@,
            out@.len() == k + 1,
            string_views(out@) =~= merged.take(k + 1 as int),
        decreases keys@.len() - k,
    {
        let ghost pre = out@;
        out.push(keys[k].clone_string());
        proof {
            let pv = string_views(pre);
            assert(forall|w: int| 0 <= w < pre.len() ==> pv[w] == #[trigger] pre[w]@);
            let ov = string_views(out@);
            assert(forall|w: int| 0 <= w < out@.len() ==> ov[w] == #[trigger] out@[w]@);
            assert(ov =~= merged.take(k + 2 as int));
        }
        k = k + 1;
    }
    proof {
        assert(merged.take(keys@.len() + 1 as int) =~= merged);
        assert(string_views(out@) =~= merged);
        lemma_string_insert(kv, key@, pos as int);
        assert forall|k2: Seq<char>|
            string_views(out@).contains(k2) == (string_views(keys@).contains(k2) || k2
                == key@) by {
            assert(string_views(out@) == merged);
            assert(merged.contains(k2) == (kv.contains(k2) || k2 == key@));
        }
    }
    out
}

proof fn lemma_string_insert(kv: Seq<Seq<char>>, keyv: Seq<char>, pos: int)
    requires
        0 <= pos <= kv.len(),
        strings_strictly_sorted(kv),
        forall|j: int| 0 <= j < pos ==> str_le(#[trigger] kv[j], keyv) && kv[j] != keyv,
        pos < kv.len() ==> str_le(keyv, kv[pos]) && keyv != kv[pos],
    ensures
        strings_strictly_sorted(kv.take(pos).push(keyv) + kv.skip(pos)),
        forall|k: Seq<char>|
            (kv.take(pos).push(keyv) + kv.skip(pos)).contains(k) == (kv.contains(k) || k == keyv),
{
    let v = kv.take(pos).push(keyv) + kv.skip(pos);
    assert forall|i: int, j: int| 0 <= i < j < v.len() implies str_lt(v[i], v[j]) by {
        if j < pos {
            assert(str_lt(kv[i], kv[j]));
            assert(v[i] == kv[i] && v[j] == kv[j]);
        } else if j == pos {
            assert(v[i] == kv[i] && v[j] == keyv);
            assert(str_le(kv[i], keyv) && kv[i] != keyv);
        } else if i == pos {
            assert(v[i] == keyv && v[j] == kv[j - 1]);
            if pos < j - 1 {
                assert(str_lt(kv[pos], kv[j - 1]));
                lemma_str_le_trans(keyv, kv[pos], kv[j - 1]);
                assert(keyv != kv[j - 1]) by {
                    if keyv == kv[j - 1] {
                        lemma_str_le_antisym(keyv, kv[pos]);
                    }
                }
            }
        } else if i < pos {
            assert(v[i] == kv[i] && v[j] == kv[j - 1]);
            assert(str_lt(kv[i], kv[j - 1]));
        } else {
            assert(v[i] == kv[i - 1] && v[j] == kv[j - 1]);
            assert(str_lt(kv[i - 1], kv[j - 1]));
        }
    }
    assert forall|k: Seq<char>| v.contains(k) == (kv.contains(k) || k == keyv) by {
        if v.contains(k) {
            let w = choose|w: int| 0 <= w < v.len() && v[w] == k;
            if w < pos {
                assert(kv[w] == k);
            } else if w == pos {
            } else {
                assert(kv[w - 1] == k);
            }
        }
        if kv.contains(k) {
            let w = choose|w: int| 0 <= w < kv.len() && kv[w] == k;
            if w < pos {
                assert(v[w] == k);
            } else {
                assert(v[w + 1] == k);
            }
        }
        if k == keyv {
            assert(v[pos] == k);
        }
    }
}

/// Clones a string, keeping its view.
pub fn clone_str(s: &String) -> (r: String)
    ensures
        r@ == s@,
{
    s.clone()
}

/// A cloning helper usable where a method call reads better.
pub trait CloneString {
    /// Clones the string, keeping its view.
    fn clone_string(&self) -> (r: String)
        ensures
            r@ == self.string_view(),
    ;

    /// The view of the string.
    spec fn string_view(&self) -> Seq<char>;
}

impl CloneString for String {
    open spec fn string_view(&self) -> Seq<char> {
        self@
    }

    fn clone_string(&self) -> (r: String) {
        self.clone()
    }
}

} // verus!
