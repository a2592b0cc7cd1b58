//! The line editor of the serial console: a state machine from the editor's
//! state and one input byte to the next state and what the terminal must show
//! or run. The caller writes the bytes, prints the prompt and runs commands.
use vstd::prelude::*;
use crate::util::{push_all, copy_bytes, push_dec_bytes, bytes_equal, tail_vec, utf8_to_string};
use vstd::string::StringSliceAdditionalSpecFns;

verus! {

/// Most history entries kept.
pub const MAX_HISTORY: usize = 50;
/// Longest line that typing can grow.
pub const MAX_LINE: usize = 512;

/// The commands known to completion, in their listing order.
pub open spec fn command_names() -> Seq<Seq<u8>> {
    seq![
        seq![104u8, 101u8, 108u8, 112u8],
        seq![118u8, 101u8, 114u8, 115u8, 105u8, 111u8, 110u8],
        seq![115u8, 116u8, 97u8, 116u8, 117u8, 115u8],
        seq![109u8, 101u8, 109u8],
        seq![112u8, 115u8],
        seq![115u8, 99u8, 104u8, 101u8, 100u8],
        seq![108u8, 115u8],
        seq![99u8, 97u8, 116u8],
        seq![109u8, 111u8, 100u8, 117u8, 108u8, 101u8, 115u8],
        seq![115u8, 97u8, 110u8, 100u8, 98u8, 111u8, 120u8],
        seq![114u8, 101u8, 98u8, 111u8, 111u8, 116u8],
        seq![99u8, 108u8, 101u8, 97u8, 114u8],
        seq![101u8, 120u8, 101u8, 99u8],
        seq![107u8, 105u8, 108u8, 108u8],
        seq![99u8, 116u8],
        seq![100u8, 97u8, 103u8],
        seq![115u8, 121u8, 110u8, 99u8],
        seq![100u8, 101u8, 118u8, 105u8, 99u8, 101u8, 115u8],
        seq![104u8, 97u8, 110u8, 100u8, 111u8, 102u8, 102u8],
        seq![99u8, 108u8, 105u8, 112u8, 98u8, 111u8, 97u8, 114u8, 100u8],
        seq![109u8, 111u8, 98u8, 105u8, 108u8, 101u8],
        seq![116u8, 104u8, 101u8, 109u8, 101u8],
        seq![97u8, 114u8],
        seq![99u8, 111u8, 103u8, 110u8],
        seq![109u8, 111u8, 110u8, 105u8, 116u8, 111u8, 114u8],
        seq![116u8, 111u8, 112u8],
        seq![116u8, 101u8, 115u8, 116u8],
        seq![116u8, 104u8, 114u8, 101u8, 97u8, 116u8],
        seq![112u8, 114u8, 105u8, 118u8, 97u8, 99u8, 121u8],
        seq![112u8, 50u8, 112u8],
        seq![112u8, 101u8, 101u8, 114u8, 115u8],
        seq![105u8, 97u8],
        seq![115u8, 117u8, 103u8, 103u8, 101u8, 115u8, 116u8],
        seq![101u8, 100u8, 103u8, 101u8],
        seq![119u8, 97u8, 115u8, 109u8],
        seq![120u8, 114u8],
        seq![113u8, 117u8, 97u8, 110u8, 116u8, 117u8, 109u8],
        seq![110u8, 101u8, 116u8],
        seq![115u8, 121u8, 115u8, 99u8, 97u8, 108u8, 108u8],
        seq![117u8, 105u8],
        seq![97u8, 114u8, 109u8],
        seq![112u8, 99u8, 105u8]
    ]
}

/// The command names, as bytes.
pub fn command_list() -> (v: Vec<Vec<u8>>)
    ensures
        seqs_of(v@) == command_names(),
{
    let mut v: Vec<Vec<u8>> = Vec::new();
    v.push(vec![104u8, 101u8, 108u8, 112u8]); // help
    v.push(vec![118u8, 101u8, 114u8, 115u8, 105u8, 111u8, 110u8]); // version
    v.push(vec![115u8, 116u8, 97u8, 116u8, 117u8, 115u8]); // status
    v.push(vec![109u8, 101u8, 109u8]); // mem
    v.push(vec![112u8, 115u8]); // ps
    v.push(vec![115u8, 99u8, 104u8, 101u8, 100u8]); // sched
    v.push(vec![108u8, 115u8]); // ls
    v.push(vec![99u8, 97u8, 116u8]); // cat
    v.push(vec![109u8, 111u8, 100u8, 117u8, 108u8, 101u8, 115u8]); // modules
    v.push(vec![115u8, 97u8, 110u8, 100u8, 98u8, 111u8, 120u8]); // sandbox
    v.push(vec![114u8, 101u8, 98u8, 111u8, 111u8, 116u8]); // reboot
    v.push(vec![99u8, 108u8, 101u8, 97u8, 114u8]); // clear
    v.push(vec![101u8, 120u8, 101u8, 99u8]); // exec
    v.push(vec![107u8, 105u8, 108u8, 108u8]); // kill
    v.push(vec![99u8, 116u8]); // ct
    v.push(vec![100u8, 97u8, 103u8]); // dag
    v.push(vec![115u8, 121u8, 110u8, 99u8]); // sync
    v.push(vec![100u8, 101u8, 118u8, 105u8, 99u8, 101u8, 115u8]); // devices
    v.push(vec![104u8, 97u8, 110u8, 100u8, 111u8, 102u8, 102u8]); // handoff
    v.push(vec![99u8, 108u8, 105u8, 112u8, 98u8, 111u8, 97u8, 114u8, 100u8]); // clipboard
    v.push(vec![109u8, 111u8, 98u8, 105u8, 108u8, 101u8]); // mobile
    v.push(vec![116u8, 104u8, 101u8, 109u8, 101u8]); // theme
    v.push(vec![97u8, 114u8]); // ar
    v.push(vec![99u8, 111u8, 103u8, 110u8]); // cogn
    v.push(vec![109u8, 111u8, 110u8, 105u8, 116u8, 111u8, 114u8]); // monitor
    v.push(vec![116u8, 111u8, 112u8]); // top
    v.push(vec![116u8, 101u8, 115u8, 116u8]); // test
    v.push(vec![116u8, 104u8, 114u8, 101u8, 97u8, 116u8]); // threat
    v.push(vec![112u8, 114u8, 105u8, 118u8, 97u8, 99u8, 121u8]); // privacy
    v.push(vec![112u8, 50u8, 112u8]); // p2p
    v.push(vec![112u8, 101u8, 101u8, 114u8, 115u8]); // peers
    v.push(vec![105u8, 97u8]); // ia
    v.push(vec![115u8, 117u8, 103u8, 103u8, 101u8, 115u8, 116u8]); // suggest
    v.push(vec![101u8, 100u8, 103u8, 101u8]); // edge
    v.push(vec![119u8, 97u8, 115u8, 109u8]); // wasm
    v.push(vec![120u8, 114u8]); // xr
    v.push(vec![113u8, 117u8, 97u8, 110u8, 116u8, 117u8, 109u8]); // quantum
    v.push(vec![110u8, 101u8, 116u8]); // net
    v.push(vec![115u8, 121u8, 115u8, 99u8, 97u8, 108u8, 108u8]); // syscall
    v.push(vec![117u8, 105u8]); // ui
    v.push(vec![97u8, 114u8, 109u8]); // arm
    v.push(vec![112u8, 99u8, 105u8]); // pci
    assert(seqs_of(v@) =~= command_names());
    v
}

/// The byte strings held by a vector of byte vectors.
pub open spec fn seqs_of(v: Seq<Vec<u8>>) -> Seq<Seq<u8>> {
    v.map_values(|x: Vec<u8>| x@)
}

/// `p` is a prefix of `s`.
pub open spec fn is_prefix(p: Seq<u8>, s: Seq<u8>) -> bool {
    p.len() <= s.len() && s.subrange(0, p.len() as int) == p
}

/// The commands that start with `prefix`, in listing order.
pub open spec fn completions(prefix: Seq<u8>) -> Seq<Seq<u8>> {
    command_names().filter(|c: Seq<u8>| is_prefix(prefix, c))
}

/// Whether `s` starts with `p`.
pub fn starts_with(s: &[u8], p: &[u8]) -> (b: bool)
    ensures
        b == is_prefix(p@, s@),
{
    if p.len() > s.len() {
        return false;
    }
    let mut i: usize = 0;
    while i < p.len()
        invariant
            p@.len() <= s@.len(),
            i <= p@.len(),
            forall|j: int| 0 <= j < i ==> s@[j] == p@[j],
        decreases p@.len() - i,
    {
        if s[i] != p[i] {
            assert(s@.subrange(0, p@.len() as int)[i as int] != p@[i as int]);
            return false;
        }
        i = i + 1;
    }
    assert(s@.subrange(0, p@.len() as int) =~= p@);
    true
}

/// The commands that complete `prefix`.
pub fn complete(prefix: &[u8]) -> (r: Vec<Vec<u8>>)
    ensures
        seqs_of(r@) == completions(prefix@),
{
    let names = command_list();
    let ghost f = |c: Seq<u8>| is_prefix(prefix@, c);
    let mut r: Vec<Vec<u8>> = Vec::new();
    let mut k: usize = 0;
    while k < names.len()
        invariant
            k <= names@.len(),
            seqs_of(names@) == command_names(),
            f == (|c: Seq<u8>| is_prefix(prefix@, c)),
            seqs_of(r@) == command_names().subrange(0, k as int).filter(f),
        decreases names@.len() - k,
    {
        let ghost before = seqs_of(r@);
        assert(seqs_of(names@)[k as int] == names@[k as int]@);
        proof {
            assert(command_names().subrange(0, k + 1) =~= command_names().subrange(0, k as int).push(seqs_of(names@)[k as int]));
            command_names().subrange(0, k as int).lemma_filter_push(seqs_of(names@)[k as int], f);
        }
        if starts_with(names[k].as_slice(), prefix) {
            r.push(copy_bytes(names[k].as_slice()));
            proof {
                assert(r@[r@.len() - 1]@ == names@[k as int]@);
                assert(seqs_of(r@) =~= before.push(names@[k as int]@));
                assert(f(seqs_of(names@)[k as int]));
            }
        } else {
            assert(!f(seqs_of(names@)[k as int]));
        }
        assert(seqs_of(r@) == command_names().subrange(0, k + 1).filter(f));
        k = k + 1;
    }
    assert(command_names().subrange(0, names@.len() as int) =~= command_names());
    r
}

/// `p` is the longest prefix shared by every word of `ws`.
pub open spec fn is_common_prefix(ws: Seq<Seq<u8>>, p: Seq<u8>) -> bool {
    &&& ws.len() > 0
    &&& forall|j: int| 0 <= j < ws.len() ==> is_prefix(p, #[trigger] ws[j])
    &&& (p.len() == ws[0].len() || exists|j: int| 0 <= j < ws.len()
            && (#[trigger] ws[j].len() == p.len() || ws[j][p.len() as int] != ws[0][p.len() as int]))
}

/// The longest prefix shared by all `words`; empty when there are none.
pub fn longest_common_prefix(words: &Vec<Vec<u8>>) -> (r: Vec<u8>)
    ensures
        words@.len() == 0 ==> r@.len() == 0,
        words@.len() > 0 ==> is_common_prefix(seqs_of(words@), r@),
{
    if words.len() == 0 {
        return Vec::new();
    }
    let ghost ws = seqs_of(words@);
    let first = &words[0];
    let mut len: usize = first.len();
    let mut k: usize = 1;
    proof {
        assert(ws[0] == first@);
        assert(first@.subrange(0, len as int) =~= first@);
    }
    while k < words.len()
        invariant
            ws == seqs_of(words@),
            ws[0] == first@,
            1 <= k <= words@.len(),
            len <= first@.len(),
            forall|j: int| 0 <= j < k ==> is_prefix(first@.subrange(0, len as int), #[trigger] ws[j]),
            len == first@.len() || exists|j: int| 0 <= j < k
                && (#[trigger] ws[j].len() == len || ws[j][len as int] != first@[len as int]),
        decreases words@.len() - k,
    {
        let w = &words[k];
        assert(ws[k as int] == w@);
        let mut c: usize = 0;
        while c < len && c < w.len() && w[c] == first[c]
            invariant
                c <= len,
                len <= first@.len(),
                c <= w@.len(),
                forall|i: int| 0 <= i < c ==> w@[i] == first@[i],
            decreases len - c,
        {
            c = c + 1;
        }
        proof {
            assert(w@.subrange(0, c as int) =~= first@.subrange(0, c as int));
            assert forall|j: int| 0 <= j < k + 1 implies is_prefix(first@.subrange(0, c as int), #[trigger] ws[j]) by {
                if j < k {
                    assert(ws[j].subrange(0, c as int) =~= ws[j].subrange(0, len as int).subrange(0, c as int));
                }
                assert(first@.subrange(0, c as int) =~= first@.subrange(0, len as int).subrange(0, c as int));
            }
            if c < len {
                assert(ws[k as int].len() == c || ws[k as int][c as int] != first@[c as int]);
            }
        }
        len = c;
        k = k + 1;
    }
    let mut r: Vec<u8> = Vec::new();
    let mut i: usize = 0;
    while i < len
        invariant
            i <= len,
            len <= first@.len(),
            r@ == first@.subrange(0, i as int),
        decreases len - i,
    {
        r.push(first[i]);
        i = i + 1;
        assert(r@ =~= first@.subrange(0, i as int));
    }
    r
}

/// ASCII white space, as trimming removes it.
pub open spec fn is_space(b: u8) -> bool {
    b == 32 || (9 <= b && b <= 13)
}

/// `s` without its leading white space.
pub open spec fn trim_front(s: Seq<u8>) -> Seq<u8>
    decreases s.len(),
{
    if s.len() > 0 && is_space(s[0]) { trim_front(s.drop_first()) } else { s }
}

/// `s` without its trailing white space.
pub open spec fn trim_back(s: Seq<u8>) -> Seq<u8>
    decreases s.len(),
{
    if s.len() > 0 && is_space(s.last()) { trim_back(s.drop_last()) } else { s }
}

/// `s` without white space at either end.
pub open spec fn trimmed(s: Seq<u8>) -> Seq<u8> {
    trim_back(trim_front(s))
}

/// A three-byte UTF-8 character that is white space: U+1680, U+2000 to
/// U+200A, U+2028, U+2029, U+202F, U+205F and U+3000.
pub open spec fn is_space3(a: u8, b: u8, c: u8) -> bool {
    ||| a == 0xE1 && b == 0x9A && c == 0x80
    ||| a == 0xE2 && b == 0x80 && ((0x80 <= c && c <= 0x8A) || c == 0xA8 || c == 0xA9 || c == 0xAF)
    ||| a == 0xE2 && b == 0x81 && c == 0x9F
    ||| a == 0xE3 && b == 0x80 && c == 0x80
}

/// The bytes of the white-space character that UTF-8 text `s` starts with
/// (white space as Unicode counts it), or 0.
pub open spec fn space_lead(s: Seq<u8>) -> int {
    if s.len() >= 1 && is_space(s[0]) { 1 }
    else if s.len() >= 2 && s[0] == 0xC2 && (s[1] == 0x85 || s[1] == 0xA0) { 2 }
    else if s.len() >= 3 && is_space3(s[0], s[1], s[2]) { 3 }
    else { 0 }
}

/// The bytes of the white-space character that UTF-8 text `s` ends with, or 0.
pub open spec fn space_trail(s: Seq<u8>) -> int {
    let n = s.len() as int;
    if n >= 1 && is_space(s[n - 1]) { 1 }
    else if n >= 2 && s[n - 2] == 0xC2 && (s[n - 1] == 0x85 || s[n - 1] == 0xA0) { 2 }
    else if n >= 3 && is_space3(s[n - 3], s[n - 2], s[n - 1]) { 3 }
    else { 0 }
}

/// UTF-8 text `s` without its leading white space.
pub open spec fn text_trim_front(s: Seq<u8>) -> Seq<u8>
    decreases s.len(),
{
    if space_lead(s) > 0 { text_trim_front(s.subrange(space_lead(s), s.len() as int)) } else { s }
}

/// UTF-8 text `s` without its trailing white space.
pub open spec fn text_trim_back(s: Seq<u8>) -> Seq<u8>
    decreases s.len(),
{
    if space_trail(s) > 0 { text_trim_back(s.subrange(0, s.len() - space_trail(s))) } else { s }
}

/// UTF-8 text `s` without white space, as Unicode counts it, at either end.
pub open spec fn text_trimmed(s: Seq<u8>) -> Seq<u8> {
    text_trim_back(text_trim_front(s))
}

fn lead_space(s: &[u8], a: usize) -> (k: usize)
    requires
        a <= s@.len(),
    ensures
        k == space_lead(s@.subrange(a as int, s@.len() as int)),
{
    let n = s.len();
    let ghost t = s@.subrange(a as int, n as int);
    if a < n && (s[a] == 32 || (9 <= s[a] && s[a] <= 13)) {
        assert(t[0] == s@[a as int]);
        1
    } else if n - a >= 2 && s[a] == 0xC2 && (s[a + 1] == 0x85 || s[a + 1] == 0xA0) {
        assert(t[0] == s@[a as int] && t[1] == s@[a + 1]);
        2
    } else if n - a >= 3 && ((s[a] == 0xE1 && s[a + 1] == 0x9A && s[a + 2] == 0x80)
        || (s[a] == 0xE2 && s[a + 1] == 0x80 && ((0x80 <= s[a + 2] && s[a + 2] <= 0x8A) || s[a + 2] == 0xA8
            || s[a + 2] == 0xA9 || s[a + 2] == 0xAF))
        || (s[a] == 0xE2 && s[a + 1] == 0x81 && s[a + 2] == 0x9F)
        || (s[a] == 0xE3 && s[a + 1] == 0x80 && s[a + 2] == 0x80)) {
        assert(t[0] == s@[a as int] && t[1] == s@[a + 1] && t[2] == s@[a + 2]);
        3
    } else {
        proof {
            if a < n {
                assert(t[0] == s@[a as int]);
            }
            if n - a >= 2 {
                assert(t[1] == s@[a + 1]);
            }
            if n - a >= 3 {
                assert(t[2] == s@[a + 2]);
            }
        }
        0
    }
}

fn trail_space(s: &[u8], a: usize, b: usize) -> (k: usize)
    requires
        a <= b <= s@.len(),
    ensures
        k == space_trail(s@.subrange(a as int, b as int)),
        k <= b - a,
{
    let ghost t = s@.subrange(a as int, b as int);
    let m = b - a;
    if m >= 1 && (s[b - 1] == 32 || (9 <= s[b - 1] && s[b - 1] <= 13)) {
        assert(t[m - 1] == s@[b - 1]);
        1
    } else if m >= 2 && s[b - 2] == 0xC2 && (s[b - 1] == 0x85 || s[b - 1] == 0xA0) {
        assert(t[m - 2] == s@[b - 2] && t[m - 1] == s@[b - 1]);
        2
    } else if m >= 3 && ((s[b - 3] == 0xE1 && s[b - 2] == 0x9A && s[b - 1] == 0x80)
        || (s[b - 3] == 0xE2 && s[b - 2] == 0x80 && ((0x80 <= s[b - 1] && s[b - 1] <= 0x8A) || s[b - 1] == 0xA8
            || s[b - 1] == 0xA9 || s[b - 1] == 0xAF))
        || (s[b - 3] == 0xE2 && s[b - 2] == 0x81 && s[b - 1] == 0x9F)
        || (s[b - 3] == 0xE3 && s[b - 2] == 0x80 && s[b - 1] == 0x80)) {
        assert(t[m - 3] == s@[b - 3] && t[m - 2] == s@[b - 2] && t[m - 1] == s@[b - 1]);
        3
    } else {
        proof {
            if m >= 1 {
                assert(t[m - 1] == s@[b - 1]);
            }
            if m >= 2 {
                assert(t[m - 2] == s@[b - 2]);
            }
            if m >= 3 {
                assert(t[m - 3] == s@[b - 3]);
            }
        }
        0
    }
}

/// UTF-8 text without white space, as Unicode counts it, at either end.
pub fn trim_text(s: &[u8]) -> (r: Vec<u8>)
    ensures
        r@ == text_trimmed(s@),
{
    let n = s.len();
    let mut a: usize = 0;
    assert(s@.subrange(0, n as int) =~= s@);
    loop
        invariant
            a <= n,
            n == s@.len(),
            text_trim_front(s@) == text_trim_front(s@.subrange(a as int, n as int)),
        ensures
            a <= n,
            text_trim_front(s@) == text_trim_front(s@.subrange(a as int, n as int)),
            space_lead(s@.subrange(a as int, n as int)) == 0,
        decreases n - a,
    {
        let k = lead_space(s, a);
        if k == 0 {
            break;
        }
        assert(s@.subrange(a as int, n as int).subrange(k as int, n - a) =~= s@.subrange(a + k, n as int));
        a = a + k;
    }
    assert(text_trim_front(s@.subrange(a as int, n as int)) == s@.subrange(a as int, n as int));
    let mut b: usize = n;
    loop
        invariant
            a <= b <= n,
            n == s@.len(),
            text_trim_front(s@) == s@.subrange(a as int, n as int),
            text_trimmed(s@) == text_trim_back(s@.subrange(a as int, b as int)),
        ensures
            a <= b <= n,
            text_trimmed(s@) == text_trim_back(s@.subrange(a as int, b as int)),
            space_trail(s@.subrange(a as int, b as int)) == 0,
        decreases b - a,
    {
        let k = trail_space(s, a, b);
        if k == 0 {
            break;
        }
        assert(s@.subrange(a as int, b as int).subrange(0, b - a - k) =~= s@.subrange(a as int, b - k));
        b = b - k;
    }
    assert(text_trim_back(s@.subrange(a as int, b as int)) == s@.subrange(a as int, b as int));
    let mut r: Vec<u8> = Vec::new();
    let mut i: usize = a;
    while i < b
        invariant
            a <= i <= b,
            b <= n,
            n == s@.len(),
            r@ == s@.subrange(a as int, i as int),
        decreases b - i,
    {
        r.push(s[i]);
        i = i + 1;
        assert(r@ =~= s@.subrange(a as int, i as int));
    }
    r
}

/// `s` without white space at either end.
pub fn trim(s: &[u8]) -> (r: Vec<u8>)
    ensures
        r@ == trimmed(s@),
{
    let n = s.len();
    let mut a: usize = 0;
    assert(s@.subrange(0, n as int) =~= s@);
    while a < n && (s[a] == 32 || (9 <= s[a] && s[a] <= 13))
        invariant
            a <= n,
            n == s@.len(),
            trim_front(s@) == trim_front(s@.subrange(a as int, n as int)),
        decreases n - a,
    {
        assert(s@.subrange(a as int, n as int).drop_first() =~= s@.subrange(a + 1, n as int));
        a = a + 1;
    }
    assert(trim_front(s@.subrange(a as int, n as int)) == s@.subrange(a as int, n as int));
    let mut b: usize = n;
    while b > a && (s[b - 1] == 32 || (9 <= s[b - 1] && s[b - 1] <= 13))
        invariant
            a <= b <= n,
            n == s@.len(),
            trim_front(s@) == s@.subrange(a as int, n as int),
            trimmed(s@) == trim_back(s@.subrange(a as int, b as int)),
        decreases b - a,
    {
        assert(s@.subrange(a as int, b as int).drop_last() =~= s@.subrange(a as int, b - 1));
        b = b - 1;
    }
    let mut r: Vec<u8> = Vec::new();
    let mut i: usize = a;
    while i < b
        invariant
            a <= i <= b,
            b <= n,
            n == s@.len(),
            r@ == s@.subrange(a as int, i as int),
        decreases b - i,
    {
        r.push(s[i]);
        i = i + 1;
        assert(r@ =~= s@.subrange(a as int, i as int));
    }
    r
}

/// Where the word ending at the end of `s` starts: just after its last space.
pub open spec fn word_start(s: Seq<u8>) -> int
    decreases s.len(),
{
    if s.len() == 0 { 0 } else if s.last() == 32 { s.len() as int } else { word_start(s.drop_last()) }
}

proof fn lemma_word_start_bound(s: Seq<u8>)
    ensures
        0 <= word_start(s) <= s.len(),
    decreases s.len(),
{
    if s.len() > 0 && s.last() != 32 {
        lemma_word_start_bound(s.drop_last());
    }
}

/// `q` occurs in `s` at position `i`.
pub open spec fn occurs_at(s: Seq<u8>, q: Seq<u8>, i: int) -> bool {
    0 <= i && i + q.len() <= s.len() && s.subrange(i, i + q.len()) == q
}

/// `q` occurs somewhere in `s`.
pub open spec fn contains_sub(s: Seq<u8>, q: Seq<u8>) -> bool {
    exists|i: int| occurs_at(s, q, i)
}

/// How many leading bytes of `q` match `s` from position `i`.
fn match_len(s: &[u8], q: &[u8], i: usize) -> (k: usize)
    requires
        i + q.len() <= s.len(),
    ensures
        k <= q@.len(),
        forall|t: int| 0 <= t < k ==> s@[i + t] == q@[t],
        k < q@.len() ==> s@[i + k] != q@[k as int],
{
    let mut k: usize = 0;
    while k < q.len()
        invariant
            i + q.len() <= s.len(),
            k <= q@.len(),
            forall|t: int| 0 <= t < k ==> s@[i + t] == q@[t],
        decreases q@.len() - k,
    {
        if s[i + k] != q[k] {
            return k;
        }
        k = k + 1;
    }
    k
}

/// Whether `q` occurs in `s`.
pub fn contains(s: &[u8], q: &[u8]) -> (b: bool)
    ensures
        b == contains_sub(s@, q@),
{
    if q.len() > s.len() {
        assert forall|i: int| !occurs_at(s@, q@, i) by {}
        return false;
    }
    if q.len() == 0 {
        assert(s@.subrange(0, 0) =~= q@);
        assert(occurs_at(s@, q@, 0));
        return true;
    }
    let last = s.len() - q.len();
    let mut i: usize = 0;
    while i <= last
        invariant
            last == s.len() - q.len(),
            q.len() >= 1,
            i <= last + 1,
            forall|j: int| 0 <= j < i ==> !occurs_at(s@, q@, j),
        decreases last + 1 - i,
    {
        let k = match_len(s, q, i);
        if k == q.len() {
            assert(s@.subrange(i as int, i + q@.len()) =~= q@);
            assert(occurs_at(s@, q@, i as int));
            return true;
        }
        assert(s@.subrange(i as int, i + q@.len())[k as int] != q@[k as int]);
        i = i + 1;
    }
    false
}

/// The newest history entry that contains `q`.
pub open spec fn last_match(h: Seq<Seq<u8>>, q: Seq<u8>) -> Option<int>
    decreases h.len(),
{
    if h.len() == 0 {
        None
    } else if contains_sub(h.last(), q) {
        Some(h.len() - 1)
    } else {
        last_match(h.drop_last(), q)
    }
}

proof fn lemma_last_match_bound(h: Seq<Seq<u8>>, q: Seq<u8>)
    ensures
        last_match(h, q) matches Some(k) ==> 0 <= k < h.len(),
    decreases h.len(),
{
    if h.len() > 0 && !contains_sub(h.last(), q) {
        lemma_last_match_bound(h.drop_last(), q);
    }
}

/// The position of the newest history entry containing `query`.
pub fn find_in_history(query: &[u8], history: &Vec<Vec<u8>>) -> (r: Option<usize>)
    ensures
        r matches Some(k) ==> last_match(seqs_of(history@), query@) == Some(k as int),
        r.is_none() ==> last_match(seqs_of(history@), query@).is_none(),
{
    let ghost h = seqs_of(history@);
    let mut n: usize = history.len();
    assert(h.subrange(0, n as int) =~= h);
    while n > 0
        invariant
            n <= h.len(),
            h == seqs_of(history@),
            last_match(h, query@) == last_match(h.subrange(0, n as int), query@),
        decreases n,
    {
        let ghost hs = h.subrange(0, n as int);
        assert(hs.last() == history@[n - 1]@);
        assert(hs.drop_last() =~= h.subrange(0, n - 1));
        if contains(history[n - 1].as_slice(), query) {
            return Some(n - 1);
        }
        n = n - 1;
    }
    None
}


/// Uniqueness of the longest common prefix.
pub proof fn lemma_common_prefix_unique(ws: Seq<Seq<u8>>, p1: Seq<u8>, p2: Seq<u8>)
    requires
        is_common_prefix(ws, p1),
        is_common_prefix(ws, p2),
    ensures
        p1 == p2,
{
    assert(is_prefix(p1, ws[0]) && is_prefix(p2, ws[0]));
    lemma_not_shorter(ws, p1, p2);
    lemma_not_shorter(ws, p2, p1);
    {
        assert(p1 =~= ws[0].subrange(0, p1.len() as int));
        assert(p2 =~= ws[0].subrange(0, p2.len() as int));
    }
}

proof fn lemma_not_shorter(ws: Seq<Seq<u8>>, p1: Seq<u8>, p2: Seq<u8>)
    requires
        is_common_prefix(ws, p1),
        forall|j: int| 0 <= j < ws.len() ==> is_prefix(p2, #[trigger] ws[j]),
    ensures
        p2.len() <= p1.len(),
{
    if p1.len() < p2.len() {
        let n = p1.len() as int;
        assert(is_prefix(p2, ws[0]));
        assert(ws[0].subrange(0, p2.len() as int)[n] == ws[0][n]);
        if p1.len() != ws[0].len() {
            let j = choose|j: int| 0 <= j < ws.len()
                && (#[trigger] ws[j].len() == p1.len() || ws[j][n] != ws[0][n]);
            assert(is_prefix(p2, ws[j]));
            assert(ws[j].subrange(0, p2.len() as int)[n] == ws[j][n]);
        }
    }
}

/// The escape-sequence reader's state.
#[derive(PartialEq, Eq, Structural, Clone, Copy, Debug)]
pub enum AnsiState {
    Normal,
    Esc,
    Bracket,
    BracketNum,
}

/// The editor's state: the line, the cursor, the history and the readers.
pub struct ShellState {
    line_buf: Vec<u8>,
    cursor_pos: usize,
    history: Vec<Vec<u8>>,
    hist_idx: Option<usize>,
    ansi_state: AnsiState,
    ansi_param: u8,
    initialized: bool,
    search_mode: bool,
    search_buf: Vec<u8>,
    last_was_tab: bool,
    cmd_count: u64,
}

/// The mathematical picture of the editor's state.
#[verifier::ext_equal]
pub struct ShellModel {
    pub line: Seq<u8>,
    pub cursor: int,
    pub history: Seq<Seq<u8>>,
    pub hist_idx: Option<int>,
    pub ansi: AnsiState,
    pub param: u8,
    pub search_mode: bool,
    pub search: Seq<u8>,
    pub last_tab: bool,
    pub cmd_count: int,
    pub initialized: bool,
}

/// What the terminal must do after a byte, in this order: write `before`, run
/// `command`, save the history, print the prompt, write `after`.
pub struct ShellOutput {
    pub before: Vec<u8>,
    pub command: Option<Vec<u8>>,
    pub save_history: bool,
    pub prompt: bool,
    pub after: Vec<u8>,
}

/// `m` with a new line and cursor.
pub open spec fn set_line(m: ShellModel, line: Seq<u8>, cursor: int) -> ShellModel {
    ShellModel { line, cursor, ..m }
}

/// After Enter: the trimmed line joins the history unless it is empty or repeats
/// the newest entry; the oldest entry leaves when the history is full.
pub open spec fn enter_step(m: ShellModel) -> ShellModel {
    let cmd = trimmed(m.line);
    let h = if cmd.len() > 0 && (m.history.len() == 0 || m.history.last() != cmd) {
        (if m.history.len() >= MAX_HISTORY { m.history.drop_first() } else { m.history }).push(cmd)
    } else {
        m.history
    };
    ShellModel {
        line: Seq::empty(),
        cursor: 0,
        history: h,
        hist_idx: None,
        last_tab: false,
        cmd_count: m.cmd_count + 1,
        ..m
    }
}

/// The longest common prefix of `ws`.
pub open spec fn common_prefix(ws: Seq<Seq<u8>>) -> Seq<u8> {
    choose|p: Seq<u8>| is_common_prefix(ws, p)
}

/// After Tab (`m.last_tab` tells whether the previous byte was Tab too): one
/// completion is taken with a space; several are shortened to their common
/// prefix on the first Tab and listed on the second.
pub open spec fn tab_step(m: ShellModel) -> ShellModel {
    let ms = completions(m.line);
    if ms.len() == 0 {
        ShellModel { last_tab: false, ..m }
    } else if ms.len() == 1 {
        let c = ms[0].push(32u8);
        ShellModel { line: c, cursor: c.len() as int, last_tab: false, ..m }
    } else if m.last_tab {
        ShellModel { last_tab: false, ..m }
    } else {
        let p = common_prefix(ms);
        if p.len() > m.line.len() {
            ShellModel { line: p, cursor: p.len() as int, last_tab: true, ..m }
        } else {
            ShellModel { last_tab: true, ..m }
        }
    }
}

/// After the up arrow: one entry older (the newest from a fresh line).
pub open spec fn history_up_step(m: ShellModel) -> ShellModel {
    if m.history.len() == 0 {
        m
    } else {
        let i = match m.hist_idx {
            None => m.history.len() - 1,
            Some(k) => if k == 0 { 0 } else { k - 1 },
        };
        ShellModel { hist_idx: Some(i), line: m.history[i], cursor: m.history[i].len() as int, ..m }
    }
}

/// After the down arrow: one entry newer, or a fresh line past the newest.
pub open spec fn history_down_step(m: ShellModel) -> ShellModel {
    if m.history.len() == 0 {
        m
    } else {
        match m.hist_idx {
            Some(k) => if k + 1 < m.history.len() {
                ShellModel { hist_idx: Some(k + 1), line: m.history[k + 1], cursor: m.history[k + 1].len() as int, ..m }
            } else {
                ShellModel { hist_idx: None, line: Seq::empty(), cursor: 0, ..m }
            },
            None => ShellModel { hist_idx: None, line: Seq::empty(), cursor: 0, ..m },
        }
    }
}

/// A byte after `ESC [`.
pub open spec fn bracket_step(m: ShellModel, b: u8) -> ShellModel {
    if b == 0x41 {
        history_up_step(m)
    } else if b == 0x42 {
        history_down_step(m)
    } else if b == 0x43 {
        if m.cursor < m.line.len() { ShellModel { cursor: m.cursor + 1, ..m } } else { m }
    } else if b == 0x44 {
        if m.cursor > 0 { ShellModel { cursor: m.cursor - 1, ..m } } else { m }
    } else if b == 0x48 || b == 0x31 {
        ShellModel { cursor: 0, ..m }
    } else if b == 0x46 || b == 0x34 {
        ShellModel { cursor: m.line.len() as int, ..m }
    } else if b == 0x33 {
        ShellModel { ansi: AnsiState::BracketNum, param: 3, ..m }
    } else {
        m
    }
}

/// A byte while the reverse search is open.
pub open spec fn search_step(m: ShellModel, b: u8) -> ShellModel {
    if b == 13 || b == 10 {
        match last_match(m.history, m.search) {
            Some(k) => ShellModel { search_mode: false, line: m.history[k], cursor: m.history[k].len() as int, ..m },
            None => ShellModel { search_mode: false, line: Seq::empty(), cursor: 0, ..m },
        }
    } else if b == 3 || b == 0x1B {
        ShellModel { search_mode: false, search: Seq::empty(), ..m }
    } else if b == 0x7F || b == 8 {
        ShellModel { search: if m.search.len() > 0 { m.search.drop_last() } else { m.search }, ..m }
    } else if 0x20 <= b && b <= 0x7E {
        ShellModel { search: m.search.push(b), ..m }
    } else {
        m
    }
}

/// A plain byte: editing keys, control keys and printable characters.
pub open spec fn normal_step(m: ShellModel, b: u8) -> ShellModel {
    if b == 13 || b == 10 {
        enter_step(m)
    } else if b == 0x7F || b == 8 {
        if m.cursor > 0 { set_line(m, m.line.remove(m.cursor - 1), m.cursor - 1) } else { m }
    } else if b == 9 {
        tab_step(m)
    } else if b == 0x1B {
        ShellModel { ansi: AnsiState::Esc, last_tab: false, ..m }
    } else if b == 1 {
        ShellModel { cursor: 0, ..m }
    } else if b == 5 {
        ShellModel { cursor: m.line.len() as int, ..m }
    } else if b == 0x0B {
        ShellModel { line: m.line.subrange(0, m.cursor), ..m }
    } else if b == 0x15 || b == 0x0C {
        set_line(m, Seq::empty(), 0)
    } else if b == 0x17 {
        if m.cursor > 0 {
            let w = word_start(m.line.subrange(0, m.cursor));
            set_line(m, m.line.subrange(0, w) + m.line.subrange(m.cursor, m.line.len() as int), w)
        } else {
            m
        }
    } else if b == 3 {
        ShellModel { line: Seq::empty(), cursor: 0, hist_idx: None, ..m }
    } else if b == 0x12 {
        ShellModel { search_mode: true, search: Seq::empty(), ..m }
    } else if 0x20 <= b && b <= 0x7E {
        if m.line.len() < MAX_LINE { set_line(m, m.line.insert(m.cursor, b), m.cursor + 1) } else { m }
    } else {
        m
    }
}

/// The editor's state after byte `b`.
pub open spec fn step(m: ShellModel, b: u8) -> ShellModel {
    if m.search_mode {
        search_step(m, b)
    } else {
        match m.ansi {
            AnsiState::Normal => normal_step(ShellModel { last_tab: m.last_tab && b == 9, ..m }, b),
            AnsiState::Esc => if b == 0x5B {
                ShellModel { ansi: AnsiState::Bracket, param: 0, ..m }
            } else {
                ShellModel { ansi: AnsiState::Normal, ..m }
            },
            AnsiState::Bracket => bracket_step(ShellModel { ansi: AnsiState::Normal, ..m }, b),
            AnsiState::BracketNum => {
                let n = ShellModel { ansi: AnsiState::Normal, ..m };
                if b == 0x7E && m.param == 3 && m.cursor < m.line.len() {
                    ShellModel { line: m.line.remove(m.cursor), ..n }
                } else {
                    n
                }
            },
        }
    }
}

/// The command that byte `b` sends to be run, if any: Enter on a line that is not blank.
pub open spec fn command_of(m: ShellModel, b: u8) -> Option<Seq<u8>> {
    if !m.search_mode && m.ansi == AnsiState::Normal && (b == 13 || b == 10) && trimmed(m.line).len() > 0 {
        Some(trimmed(m.line))
    } else {
        None
    }
}

/// Whether byte `b` ends with a fresh prompt.
pub open spec fn prompts(m: ShellModel, b: u8) -> bool {
    if m.search_mode {
        b == 13 || b == 10 || b == 3 || b == 0x1B
    } else if m.ansi == AnsiState::Normal {
        b == 13 || b == 10 || b == 3 || b == 4 || b == 0x0C
            || (b == 9 && m.last_tab && completions(m.line).len() > 1)
    } else {
        false
    }
}


/// The invariant of the editor's state.
pub open spec fn shell_wf(m: ShellModel) -> bool {
    &&& 0 <= m.cursor <= m.line.len()
    &&& m.history.len() <= MAX_HISTORY
    &&& (m.hist_idx matches Some(i) ==> 0 <= i < m.history.len())
}

/// A fresh editor: empty line, no history, reading plain bytes.
pub open spec fn fresh_model() -> ShellModel {
    ShellModel {
        line: Seq::empty(),
        cursor: 0,
        history: Seq::empty(),
        hist_idx: None,
        ansi: AnsiState::Normal,
        param: 0,
        search_mode: false,
        search: Seq::empty(),
        last_tab: false,
        cmd_count: 0,
        initialized: false,
    }
}

/// The control sequence `ESC [`, the decimal number `n` if any, and the final byte `fin`.
pub open spec fn csi_bytes(n: Option<u64>, fin: u8) -> Seq<u8> {
    seq![0x1Bu8, 0x5Bu8] + (match n {
        Some(k) => crate::util::dec_bytes(k as nat),
        None => Seq::<u8>::empty(),
    }) + seq![fin]
}

/// `ESC [ n fin` for a positive count `n`; nothing for zero.
pub open spec fn csi_count(n: int, fin: u8) -> Seq<u8> {
    if n > 0 { csi_bytes(Some(n as u64), fin) } else { Seq::empty() }
}

/// Carriage return and line feed.
pub open spec fn crlf() -> Seq<u8> {
    seq![13u8, 10u8]
}

/// What replaces the line on the terminal with `entry`: back to the start of
/// the line, clear it, write the entry.
pub open spec fn replace_shown(cursor: int, entry: Seq<u8>) -> Seq<u8> {
    csi_count(cursor, 0x44) + csi_bytes(None, 0x4B) + entry
}

/// The bytes of the text "\r\n".
proof fn lemma_crlf_bytes()
    ensures
        "\r\n".spec_bytes() == crlf(),
{
    reveal_strlit("\r\n");
    vstd::string::is_ascii_spec_bytes("\r\n");
    assert("\r\n".spec_bytes() =~= crlf());
}

/// What the up arrow shows.
pub open spec fn history_up_shown(m: ShellModel) -> Seq<u8> {
    if m.history.len() == 0 { Seq::empty() } else { replace_shown(m.cursor, history_up_step(m).line) }
}

/// What the down arrow shows.
pub open spec fn history_down_shown(m: ShellModel) -> Seq<u8> {
    if m.history.len() == 0 { Seq::empty() } else { replace_shown(m.cursor, history_down_step(m).line) }
}

/// The suffix of `line` from `pos` written out, with the cursor then moved
/// back to `pos + keep`.
pub open spec fn suffix_shown(line: Seq<u8>, pos: int, keep: int) -> Seq<u8> {
    let suffix = line.subrange(pos, line.len() as int);
    suffix + csi_count(suffix.len() - keep, 0x44)
}

/// One cell of the completion list: two spaces, the word, spaces up to 12.
pub open spec fn tab_cell(w: Seq<u8>) -> Seq<u8> {
    seq![32u8, 32u8] + w + Seq::new((if w.len() < 12 { 12 - w.len() } else { 0 }) as nat, |i: int| 32u8)
}

/// The completion list as rows: the rows written so far (each ended when it
/// grew past 60 bytes), and the row still open.
pub open spec fn tab_rows(ms: Seq<Seq<u8>>) -> (Seq<u8>, Seq<u8>)
    decreases ms.len(),
{
    if ms.len() == 0 {
        (Seq::empty(), Seq::empty())
    } else {
        let (done, open) = tab_rows(ms.drop_last());
        let row = open + tab_cell(ms.last());
        if row.len() > 60 { (done + row + crlf(), Seq::empty()) } else { (done, row) }
    }
}

/// The completion list on its own lines.
pub open spec fn tab_listing(ms: Seq<Seq<u8>>) -> Seq<u8> {
    let (done, open) = tab_rows(ms);
    crlf() + done + (if open.len() > 0 { open + crlf() } else { Seq::empty() })
}

/// What Tab shows: a bell for no completion; the rest of a single completion
/// and a space; the list on a second Tab; otherwise the common part gained,
/// and a bell.
pub open spec fn tab_shown(m: ShellModel) -> Seq<u8> {
    let ms = completions(m.line);
    if ms.len() == 0 {
        seq![7u8]
    } else if ms.len() == 1 {
        ms[0].subrange(m.line.len() as int, ms[0].len() as int) + seq![32u8]
    } else if m.last_tab {
        tab_listing(ms)
    } else {
        let p = common_prefix(ms);
        (if p.len() > m.line.len() { p.subrange(m.line.len() as int, p.len() as int) } else { Seq::empty() })
            + seq![7u8]
    }
}

/// The reverse-search line for query `q`: the label, the query, and the
/// newest history entry holding it.
pub open spec fn search_line(h: Seq<Seq<u8>>, q: Seq<u8>) -> Seq<u8> {
    seq![13u8] + "\x1B[33m(pesquisa-reversa)\x1B[0m '".spec_bytes() + q + "': ".spec_bytes()
        + (match last_match(h, q) { Some(k) => h[k], None => Seq::empty() })
}

/// What a byte shows during the reverse search.
pub open spec fn search_shown(m: ShellModel, b: u8) -> Seq<u8> {
    if b == 13 || b == 10 || b == 3 || b == 0x1B {
        crlf()
    } else if b == 0x7F || b == 8 || (0x20 <= b && b <= 0x7E) {
        search_line(m.history, search_step(m, b).search)
    } else {
        Seq::empty()
    }
}

/// A plain byte's echo (the Tab flag already updated).
pub open spec fn normal_shown(m: ShellModel, b: u8) -> Seq<u8> {
    if b == 13 || b == 10 {
        crlf()
    } else if b == 0x7F || b == 8 {
        if m.cursor > 0 {
            seq![8u8] + csi_bytes(None, 0x4B) + suffix_shown(normal_step(m, b).line, m.cursor - 1, 0)
        } else {
            Seq::empty()
        }
    } else if b == 9 {
        tab_shown(m)
    } else if b == 1 {
        csi_count(m.cursor, 0x44)
    } else if b == 5 {
        csi_count(m.line.len() - m.cursor, 0x43)
    } else if b == 0x0B {
        csi_bytes(None, 0x4B)
    } else if b == 0x15 {
        csi_count(m.cursor, 0x44) + csi_bytes(None, 0x4B)
    } else if b == 0x17 {
        if m.cursor > 0 {
            let w = word_start(m.line.subrange(0, m.cursor));
            csi_bytes(Some((m.cursor - w) as u64), 0x44) + csi_bytes(None, 0x4B)
                + suffix_shown(m.line, m.cursor, 0)
        } else {
            Seq::empty()
        }
    } else if b == 3 {
        "^C\r\n".spec_bytes()
    } else if b == 4 {
        "\r\n\x1B[33m[INFO]\x1B[0m Use 'reboot' para reiniciar.\r\n".spec_bytes()
    } else if b == 0x0C {
        csi_bytes(Some(2), 0x4A) + csi_bytes(None, 0x48)
    } else if b == 0x12 {
        "\r\n\x1B[33m(pesquisa-reversa)\x1B[0m '': ".spec_bytes()
    } else if 0x20 <= b && b <= 0x7E && m.line.len() < MAX_LINE {
        suffix_shown(normal_step(m, b).line, m.cursor, 1)
    } else {
        Seq::empty()
    }
}

/// What the terminal is sent before the command runs, after byte `b`.
pub open spec fn shown(m: ShellModel, b: u8) -> Seq<u8> {
    if m.search_mode {
        search_shown(m, b)
    } else {
        match m.ansi {
            AnsiState::Normal => normal_shown(ShellModel { last_tab: m.last_tab && b == 9, ..m }, b),
            AnsiState::Esc => Seq::empty(),
            AnsiState::Bracket => {
                let n = ShellModel { ansi: AnsiState::Normal, ..m };
                if b == 0x41 {
                    history_up_shown(n)
                } else if b == 0x42 {
                    history_down_shown(n)
                } else if b == 0x43 {
                    if m.cursor < m.line.len() { csi_bytes(None, 0x43) } else { Seq::empty() }
                } else if b == 0x44 {
                    if m.cursor > 0 { csi_bytes(None, 0x44) } else { Seq::empty() }
                } else if b == 0x48 || b == 0x31 {
                    csi_count(m.cursor, 0x44)
                } else if b == 0x46 || b == 0x34 {
                    csi_count(m.line.len() - m.cursor, 0x43)
                } else {
                    Seq::empty()
                }
            },
            AnsiState::BracketNum => if b == 0x7E && m.param == 3 && m.cursor < m.line.len() {
                csi_bytes(None, 0x4B) + suffix_shown(m.line.remove(m.cursor), m.cursor, 0)
            } else {
                Seq::empty()
            },
        }
    }
}

/// What the terminal is sent after the prompt: the line again, after a
/// completion list or a search that found an entry.
pub open spec fn shown_after(m: ShellModel, b: u8) -> Seq<u8> {
    if m.search_mode {
        if b == 13 || b == 10 { step(m, b).line } else { Seq::empty() }
    } else if m.ansi == AnsiState::Normal && b == 9 && m.last_tab && completions(m.line).len() > 1 {
        m.line
    } else {
        Seq::empty()
    }
}

/// Appends `ESC [`, the number `n` if any, and the final byte `fin`.
fn push_csi(v: &mut Vec<u8>, n: Option<u64>, fin: u8)
    ensures
        final(v)@ == old(v)@ + csi_bytes(n, fin),
        final(v)@.len() >= old(v)@.len(),
{
    v.push(0x1B);
    v.push(0x5B);
    let ghost v1 = v@;
    if let Some(k) = n {
        push_dec_bytes(v, k);
    }
    v.push(fin);
    assert(v@ =~= old(v)@ + csi_bytes(n, fin));
}

/// Appends the bytes of a text.
fn push_text(v: &mut Vec<u8>, s: &str)
    ensures
        final(v)@ == old(v)@ + s.spec_bytes(),
        final(v)@.len() >= old(v)@.len(),
{
    push_all(v, s.as_bytes());
}

impl ShellOutput {
    /// Nothing to show or run.
    pub fn empty() -> (o: ShellOutput)
        ensures
            o.before@.len() == 0 && o.after@.len() == 0,
            o.command.is_none() && !o.save_history && !o.prompt,
    {
        ShellOutput { before: Vec::new(), command: None, save_history: false, prompt: false, after: Vec::new() }
    }
}

impl ShellState {
    /// The state as a mathematical value.
    pub closed spec fn model(&self) -> ShellModel {
        ShellModel {
            line: self.line_buf@,
            cursor: self.cursor_pos as int,
            history: seqs_of(self.history@),
            hist_idx: match self.hist_idx {
                Some(i) => Some(i as int),
                None => None,
            },
            ansi: self.ansi_state,
            param: self.ansi_param,
            search_mode: self.search_mode,
            search: self.search_buf@,
            last_tab: self.last_was_tab,
            cmd_count: self.cmd_count as int,
            initialized: self.initialized,
        }
    }

    /// A fresh editor.
    pub fn new() -> (s: ShellState)
        ensures
            s.model() == fresh_model(),
            shell_wf(s.model()),
    {
        let s = ShellState {
            line_buf: Vec::new(),
            cursor_pos: 0,
            history: Vec::new(),
            hist_idx: None,
            ansi_state: AnsiState::Normal,
            ansi_param: 0,
            initialized: false,
            search_mode: false,
            search_buf: Vec::new(),
            last_was_tab: false,
            cmd_count: 0,
        };
        assert(s.model() =~= fresh_model());
        s
    }

    /// The current line.
    pub fn line(&self) -> (l: &[u8])
        ensures
            l@ == self.model().line,
    {
        self.line_buf.as_slice()
    }

    /// Writes the rest of the line from `pos` after one step back, then moves back over it.
    fn redraw_from_cursor(&self, pos: usize, out: &mut Vec<u8>)
        requires
            pos <= self.line_buf@.len(),
        ensures
            ({
                let suffix = self.model().line.subrange(pos as int, self.model().line.len() as int);
                final(out)@ == old(out)@ + seq![0x08u8] + csi_bytes(None, 0x4B) + suffix
                    + (if suffix.len() > 0 { csi_bytes(Some(suffix.len() as u64), 0x44) } else { Seq::<u8>::empty() })
            }),
            final(out)@.len() >= old(out)@.len(),
    {
        let suffix = tail_vec(self.line_buf.as_slice(), pos);
        out.push(0x08);
        push_csi(out, None, 0x4B);
        push_all(out, suffix.as_slice());
        let ghost mid = out@;
        if suffix.len() > 0 {
            push_csi(out, Some(suffix.len() as u64), 0x44);
        }
        assert(self.model().line == self.line_buf@);
        assert(out@ =~= old(out)@ + seq![0x08u8] + csi_bytes(None, 0x4B) + suffix@
            + (if suffix@.len() > 0 { csi_bytes(Some(suffix@.len() as u64), 0x44) } else { Seq::<u8>::empty() }));
    }

    /// Enter: records the trimmed line and hands it over to be run.
    fn handle_enter(&mut self, out: &mut ShellOutput)
        requires
            shell_wf(old(self).model()),
            old(self).model().cmd_count < u64::MAX,
        ensures
            final(self).model() == enter_step(old(self).model()),
            final(out).prompt,
            match final(out).command {
                Some(c) => trimmed(old(self).model().line).len() > 0 && c@ == trimmed(old(self).model().line),
                None => trimmed(old(self).model().line).len() == 0,
            },
            final(out).save_history == (trimmed(old(self).model().line).len() > 0
                && (old(self).model().cmd_count + 1) % 5 == 0),
            final(out).before@ == old(out).before@ + crlf(),
            final(out).after == old(out).after,
    {
        let ghost m = self.model();
        push_text(&mut out.before, "\r\n");
        proof {
            lemma_crlf_bytes();
        }
        let cmd = trim(self.line_buf.as_slice());
        let ghost h0 = seqs_of(self.history@);
        if cmd.len() > 0 {
            let n = self.history.len();
            let dup = n > 0 && bytes_equal(self.history[n - 1].as_slice(), cmd.as_slice());
            proof {
                if n > 0 {
                    assert(h0.last() == self.history@[n - 1]@);
                }
            }
            if !dup {
                if self.history.len() >= MAX_HISTORY {
                    self.history.remove(0);
                    assert(seqs_of(self.history@) =~= h0.drop_first());
                }
                let ghost h1 = seqs_of(self.history@);
                self.history.push(copy_bytes(cmd.as_slice()));
                assert(seqs_of(self.history@) =~= h1.push(cmd@));
            }
        }
        self.line_buf.clear();
        self.cursor_pos = 0;
        self.hist_idx = None;
        self.last_was_tab = false;
        self.cmd_count = self.cmd_count + 1;
        if cmd.len() > 0 {
            out.save_history = self.cmd_count % 5 == 0;
            out.command = Some(cmd);
        } else {
            out.save_history = false;
            out.command = None;
        }
        out.prompt = true;
        assert(self.model() =~= enter_step(m));
    }

    /// Up arrow.
    fn history_up(&mut self, out: &mut Vec<u8>)
        requires
            shell_wf(old(self).model()),
        ensures
            final(self).model() == history_up_step(old(self).model()),
            final(out)@ == old(out)@ + history_up_shown(old(self).model()),
    {
        let ghost m = self.model();
        if self.history.len() == 0 {
            return;
        }
        let new_idx: usize = match self.hist_idx {
            None => self.history.len() - 1,
            Some(i) => if i == 0 { 0 } else { i - 1 },
        };
        self.hist_idx = Some(new_idx);
        let entry = copy_bytes(self.history[new_idx].as_slice());
        let old_pos = self.cursor_pos;
        assert(m.history[new_idx as int] == entry@);
        self.line_buf = copy_bytes(entry.as_slice());
        self.cursor_pos = entry.len();
        if old_pos > 0 {
            push_csi(out, Some(old_pos as u64), 0x44);
        }
        push_csi(out, None, 0x4B);
        push_all(out, entry.as_slice());
        assert(self.model() =~= history_up_step(m));
    }

    /// Down arrow.
    fn history_down(&mut self, out: &mut Vec<u8>)
        requires
            shell_wf(old(self).model()),
        ensures
            final(self).model() == history_down_step(old(self).model()),
            final(out)@ == old(out)@ + history_down_shown(old(self).model()),
    {
        let ghost m = self.model();
        if self.history.len() == 0 {
            return;
        }
        let old_pos = self.cursor_pos;
        let next: Option<usize> = match self.hist_idx {
            None => None,
            Some(i) => if i + 1 < self.history.len() { Some(i + 1) } else { None },
        };
        match next {
            Some(k) => {
                self.hist_idx = Some(k);
                let entry = copy_bytes(self.history[k].as_slice());
                assert(m.history[k as int] == entry@);
                self.line_buf = copy_bytes(entry.as_slice());
                self.cursor_pos = entry.len();
                if old_pos > 0 {
                    push_csi(out, Some(old_pos as u64), 0x44);
                }
                push_csi(out, None, 0x4B);
                push_all(out, entry.as_slice());
            },
            None => {
                self.hist_idx = None;
                self.line_buf.clear();
                self.cursor_pos = 0;
                if old_pos > 0 {
                    push_csi(out, Some(old_pos as u64), 0x44);
                }
                push_csi(out, None, 0x4B);
            },
        }
        assert(self.model() =~= history_down_step(m));
    }
}


/// Every completion starts with the prefix it was asked for.
proof fn lemma_completions_prefix(prefix: Seq<u8>, k: int)
    requires
        0 <= k < completions(prefix).len(),
    ensures
        is_prefix(prefix, completions(prefix)[k]),
{
    let f = |c: Seq<u8>| is_prefix(prefix, c);
    command_names().lemma_filter_pred(f, k);
}

impl ShellState {
    /// Tab: completes the line from the command names.
    fn handle_tab(&mut self, out: &mut ShellOutput)
        requires
            shell_wf(old(self).model()),
        ensures
            final(self).model() == tab_step(old(self).model()),
            final(out).prompt == (old(self).model().last_tab && completions(old(self).model().line).len() > 1),
            final(out).command == old(out).command,
            final(out).save_history == old(out).save_history,
            final(out).before@ == old(out).before@ + tab_shown(old(self).model()),
            old(self).model().last_tab && completions(old(self).model().line).len() > 1
                ==> final(out).after@ == old(self).model().line,
            !(old(self).model().last_tab && completions(old(self).model().line).len() > 1)
                ==> final(out).after == old(out).after,
    {
        proof {
            lemma_crlf_bytes();
        }
        let ghost b0 = out.before@;
        let ghost m = self.model();
        let prefix_len = self.line_buf.len();
        let matches = complete(self.line_buf.as_slice());
        let ghost ms = completions(m.line);
        if matches.len() == 0 {
            out.before.push(0x07);
            self.last_was_tab = false;
            out.prompt = false;
        } else if matches.len() == 1 {
            proof {
                lemma_completions_prefix(m.line, 0);
                assert(seqs_of(matches@)[0] == matches@[0]@);
            }
            let suffix = tail_vec(matches[0].as_slice(), prefix_len);
            push_all(&mut self.line_buf, suffix.as_slice());
            assert(self.line_buf@ =~= ms[0]);
            push_all(&mut out.before, suffix.as_slice());
            out.before.push(0x20);
            self.line_buf.push(0x20);
            self.cursor_pos = self.line_buf.len();
            self.last_was_tab = false;
            out.prompt = false;
        } else if self.last_was_tab {
            push_text(&mut out.before, "\r\n");
            let mut line: Vec<u8> = Vec::new();
            let mut k: usize = 0;
            proof {
                assert(seqs_of(matches@) == ms);
                assert(ms.take(0) =~= Seq::<Seq<u8>>::empty());
            }
            while k < matches.len()
                invariant
                    k <= matches@.len(),
                    seqs_of(matches@) == ms,
                    out.command == old(out).command,
                    out.save_history == old(out).save_history,
                    out.after == old(out).after,
                    out.before@ == b0 + crlf() + tab_rows(ms.take(k as int)).0,
                    line@ == tab_rows(ms.take(k as int)).1,
                    line@.len() <= 60,
                decreases matches@.len() - k,
            {
                let ghost start = line@;
                let ghost word = matches@[k as int]@;
                assert(word == ms[k as int]);
                line.push(0x20);
                line.push(0x20);
                push_all(&mut line, matches[k].as_slice());
                let w0: usize = if matches[k].len() < 12 { matches[k].len() } else { 12 };
                let mut w: usize = w0;
                while w < 12
                    invariant
                        w0 <= w <= 12,
                        line@ == start + seq![32u8, 32u8] + word + Seq::new((w - w0) as nat, |i: int| 32u8),
                    decreases 12 - w,
                {
                    line.push(0x20);
                    w = w + 1;
                    assert(line@ =~= start + seq![32u8, 32u8] + word + Seq::new((w - w0) as nat, |i: int| 32u8));
                }
                proof {
                    assert(ms.take(k + 1).drop_last() =~= ms.take(k as int));
                    assert(ms.take(k + 1).last() == word);
                    assert(line@ =~= start + tab_cell(word));
                }
                let ghost prev = tab_rows(ms.take(k as int));
                let ghost next = tab_rows(ms.take(k + 1));
                assert(next == (if (prev.1 + tab_cell(word)).len() > 60 {
                    (prev.0 + (prev.1 + tab_cell(word)) + crlf(), Seq::<u8>::empty())
                } else {
                    (prev.0, prev.1 + tab_cell(word))
                }));
                if line.len() > 60 {
                    push_all(&mut out.before, line.as_slice());
                    push_text(&mut out.before, "\r\n");
                    line.clear();
                    proof {
                        lemma_crlf_bytes();
                    }
                    assert(out.before@ =~= b0 + crlf() + next.0);
                    assert(line@ =~= next.1);
                }
                k = k + 1;
            }
            proof {
                assert(ms.take(ms.len() as int) =~= ms);
            }
            if line.len() > 0 {
                push_all(&mut out.before, line.as_slice());
                push_text(&mut out.before, "\r\n");
            }
            out.prompt = true;
            out.after = copy_bytes(self.line_buf.as_slice());
            self.last_was_tab = false;
        } else {
            let common = longest_common_prefix(&matches);
            proof {
                assert(seqs_of(matches@) == ms);
                lemma_common_prefix_unique(ms, common@, common_prefix(ms));
            }
            if common.len() > prefix_len {
                proof {
                    lemma_completions_prefix(m.line, 0);
                    assert(is_prefix(common@, ms[0]));
                    assert(m.line =~= common@.subrange(0, prefix_len as int));
                }
                let suffix = tail_vec(common.as_slice(), prefix_len);
                push_all(&mut self.line_buf, suffix.as_slice());
                assert(self.line_buf@ =~= common@);
                self.cursor_pos = self.line_buf.len();
                push_all(&mut out.before, suffix.as_slice());
            }
            out.before.push(0x07);
            self.last_was_tab = true;
            out.prompt = false;
        }
        assert(self.model() =~= tab_step(m));
    }

    /// A byte while the reverse search is open.
    fn handle_search_byte(&mut self, byte: u8, out: &mut ShellOutput)
        requires
            shell_wf(old(self).model()),
            old(self).model().search_mode,
        ensures
            final(self).model() == search_step(old(self).model(), byte),
            final(out).prompt == (byte == 13 || byte == 10 || byte == 3 || byte == 0x1B),
            final(out).command == old(out).command,
            final(out).save_history == old(out).save_history,
            final(out).before@ == old(out).before@ + search_shown(old(self).model(), byte),
            (byte == 13 || byte == 10) && last_match(old(self).model().history, old(self).model().search) is Some
                ==> final(out).after@ == search_step(old(self).model(), byte).line,
            !((byte == 13 || byte == 10) && last_match(old(self).model().history, old(self).model().search) is Some)
                ==> final(out).after == old(out).after,
    {
        proof {
            lemma_crlf_bytes();
        }
        let ghost m = self.model();
        if byte == 13 || byte == 10 {
            self.search_mode = false;
            let found = find_in_history(self.search_buf.as_slice(), &self.history);
            proof {
                lemma_last_match_bound(m.history, m.search);
            }
            match found {
                Some(k) => {
                    assert(m.history[k as int] == self.history@[k as int]@);
                    self.line_buf = copy_bytes(self.history[k].as_slice());
                    self.cursor_pos = self.line_buf.len();
                    push_text(&mut out.before, "\r\n");
                    out.after = copy_bytes(self.line_buf.as_slice());
                },
                None => {
                    self.line_buf.clear();
                    self.cursor_pos = 0;
                    push_text(&mut out.before, "\r\n");
                },
            }
            out.prompt = true;
        } else if byte == 3 || byte == 0x1B {
            self.search_mode = false;
            self.search_buf.clear();
            push_text(&mut out.before, "\r\n");
            out.prompt = true;
        } else if byte == 0x7F || byte == 8 || (0x20 <= byte && byte <= 0x7E) {
            if byte == 0x7F || byte == 8 {
                if self.search_buf.len() > 0 {
                    self.search_buf.pop();
                    assert(self.search_buf@ =~= m.search.drop_last());
                }
            } else {
                self.search_buf.push(byte);
            }
            out.before.push(0x0D);
            push_text(&mut out.before, "\x1B[33m(pesquisa-reversa)\x1B[0m '");
            push_all(&mut out.before, self.search_buf.as_slice());
            push_text(&mut out.before, "': ");
            proof {
                lemma_last_match_bound(seqs_of(self.history@), self.search_buf@);
            }
            match find_in_history(self.search_buf.as_slice(), &self.history) {
                Some(k) => push_all(&mut out.before, self.history[k].as_slice()),
                None => {},
            }
            out.prompt = false;
        } else {
            out.prompt = false;
        }
        assert(self.model() =~= search_step(m, byte));
    }
}


impl ShellState {
    /// Where the word before the cursor starts.
    fn find_word_start(&self) -> (w: usize)
        requires
            self.cursor_pos <= self.line_buf@.len(),
        ensures
            w == word_start(self.line_buf@.subrange(0, self.cursor_pos as int)),
            w <= self.cursor_pos,
    {
        let ghost pre = self.line_buf@.subrange(0, self.cursor_pos as int);
        let mut j: usize = self.cursor_pos;
        assert(pre.subrange(0, j as int) =~= pre);
        while j > 0 && self.line_buf[j - 1] != 0x20
            invariant
                j <= self.cursor_pos,
                self.cursor_pos <= self.line_buf@.len(),
                pre == self.line_buf@.subrange(0, self.cursor_pos as int),
                word_start(pre) == word_start(pre.subrange(0, j as int)),
            decreases j,
        {
            assert(pre.subrange(0, j as int).drop_last() =~= pre.subrange(0, j - 1));
            j = j - 1;
        }
        proof {
            lemma_word_start_bound(pre.subrange(0, j as int));
            if j > 0 {
                assert(pre.subrange(0, j as int).last() == 32);
            }
        }
        j
    }

    /// A plain byte (the Tab flag already updated).
    #[verifier::rlimit(60)]
    fn normal_byte(&mut self, byte: u8, out: &mut ShellOutput)
        requires
            shell_wf(old(self).model()),
            old(self).model().cmd_count < u64::MAX,
            !old(self).model().search_mode,
            old(self).model().ansi == AnsiState::Normal,
            old(out).command.is_none(),
            !old(out).save_history,
            !old(out).prompt,
        ensures
            final(self).model() == normal_step(old(self).model(), byte),
            final(out).command.is_some() <==> command_of(old(self).model(), byte).is_some(),
            final(out).command matches Some(c) ==> command_of(old(self).model(), byte) == Some(c@),
            final(out).save_history == (command_of(old(self).model(), byte).is_some()
                && (old(self).model().cmd_count + 1) % 5 == 0),
            final(out).prompt == prompts(old(self).model(), byte),
            final(out).before@ == old(out).before@ + normal_shown(old(self).model(), byte),
            byte == 9 && old(self).model().last_tab && completions(old(self).model().line).len() > 1
                ==> final(out).after@ == old(self).model().line,
            !(byte == 9 && old(self).model().last_tab && completions(old(self).model().line).len() > 1)
                ==> final(out).after == old(out).after,
    {
        let ghost m = self.model();
        if byte == 13 || byte == 10 {
            self.handle_enter(out);
        } else if byte == 0x7F || byte == 8 {
            if self.cursor_pos > 0 {
                let pos = self.cursor_pos - 1;
                self.line_buf.remove(pos);
                self.cursor_pos = pos;
                self.redraw_from_cursor(pos, &mut out.before);
            }
        } else if byte == 9 {
            self.handle_tab(out);
        } else if byte == 0x1B {
            self.ansi_state = AnsiState::Esc;
            self.last_was_tab = false;
        } else if byte == 1 {
            let pos = self.cursor_pos;
            self.cursor_pos = 0;
            if pos > 0 {
                push_csi(&mut out.before, Some(pos as u64), 0x44);
            }
        } else if byte == 5 {
            let len = self.line_buf.len();
            let pos = self.cursor_pos;
            self.cursor_pos = len;
            if pos < len {
                push_csi(&mut out.before, Some((len - pos) as u64), 0x43);
            }
        } else if byte == 0x0B {
            self.line_buf.truncate(self.cursor_pos);
            push_csi(&mut out.before, None, 0x4B);
        } else if byte == 0x15 {
            let pos = self.cursor_pos;
            self.line_buf.clear();
            self.cursor_pos = 0;
            if pos > 0 {
                push_csi(&mut out.before, Some(pos as u64), 0x44);
            }
            push_csi(&mut out.before, None, 0x4B);
        } else if byte == 0x17 {
            let pos = self.cursor_pos;
            if pos > 0 {
                let w = self.find_word_start();
                let removed = pos - w;
                let mut nl: Vec<u8> = Vec::new();
                let mut i: usize = 0;
                while i < w
                    invariant
                        i <= w,
                        w <= pos,
                        pos <= self.line_buf@.len(),
                        nl@ == self.line_buf@.subrange(0, i as int),
                    decreases w - i,
                {
                    nl.push(self.line_buf[i]);
                    i = i + 1;
                    assert(nl@ =~= self.line_buf@.subrange(0, i as int));
                }
                let rest = tail_vec(self.line_buf.as_slice(), pos);
                push_all(&mut nl, rest.as_slice());
                self.line_buf = nl;
                self.cursor_pos = w;
                push_csi(&mut out.before, Some(removed as u64), 0x44);
                push_csi(&mut out.before, None, 0x4B);
                push_all(&mut out.before, rest.as_slice());
                if rest.len() > 0 {
                    push_csi(&mut out.before, Some(rest.len() as u64), 0x44);
                }
            }
        } else if byte == 3 {
            self.line_buf.clear();
            self.cursor_pos = 0;
            self.hist_idx = None;
            push_text(&mut out.before, "^C\r\n");
            out.prompt = true;
        } else if byte == 4 {
            push_text(&mut out.before, "\r\n\x1B[33m[INFO]\x1B[0m Use 'reboot' para reiniciar.\r\n");
            out.prompt = true;
        } else if byte == 0x0C {
            self.line_buf.clear();
            self.cursor_pos = 0;
            push_csi(&mut out.before, Some(2), 0x4A);
            push_csi(&mut out.before, None, 0x48);
            out.prompt = true;
        } else if byte == 0x12 {
            self.search_mode = true;
            self.search_buf.clear();
            push_text(&mut out.before, "\r\n\x1B[33m(pesquisa-reversa)\x1B[0m '': ");
        } else if 0x20 <= byte && byte <= 0x7E {
            if self.line_buf.len() < MAX_LINE {
                let pos = self.cursor_pos;
                self.line_buf.insert(pos, byte);
                self.cursor_pos = pos + 1;
                let suffix = tail_vec(self.line_buf.as_slice(), pos);
                push_all(&mut out.before, suffix.as_slice());
                if suffix.len() > 1 {
                    push_csi(&mut out.before, Some((suffix.len() - 1) as u64), 0x44);
                }
            }
        }
        assert(self.model() =~= normal_step(m, byte));
    }

    /// Feeds one byte from the terminal: returns what to show and run.
    pub fn process_byte(&mut self, byte: u8) -> (out: ShellOutput)
        requires
            shell_wf(old(self).model()),
            old(self).model().cmd_count < u64::MAX,
        ensures
            final(self).model() == step(old(self).model(), byte),
            out.command.is_some() <==> command_of(old(self).model(), byte).is_some(),
            out.command matches Some(c) ==> command_of(old(self).model(), byte) == Some(c@),
            out.save_history == (command_of(old(self).model(), byte).is_some()
                && (old(self).model().cmd_count + 1) % 5 == 0),
            out.prompt == prompts(old(self).model(), byte),
            out.before@ == shown(old(self).model(), byte),
            out.after@ == shown_after(old(self).model(), byte),
    {
        let ghost m = self.model();
        let mut out = ShellOutput::empty();
        if self.search_mode {
            self.handle_search_byte(byte, &mut out);
            return out;
        }
        match self.ansi_state {
            AnsiState::Normal => {
                self.last_was_tab = self.last_was_tab && byte == 9;
                self.normal_byte(byte, &mut out);
            },
            AnsiState::Esc => {
                if byte == 0x5B {
                    self.ansi_state = AnsiState::Bracket;
                    self.ansi_param = 0;
                } else {
                    self.ansi_state = AnsiState::Normal;
                }
            },
            AnsiState::Bracket => {
                self.ansi_state = AnsiState::Normal;
                if byte == 0x41 {
                    self.history_up(&mut out.before);
                } else if byte == 0x42 {
                    self.history_down(&mut out.before);
                } else if byte == 0x43 {
                    if self.cursor_pos < self.line_buf.len() {
                        self.cursor_pos = self.cursor_pos + 1;
                        push_csi(&mut out.before, None, 0x43);
                    }
                } else if byte == 0x44 {
                    if self.cursor_pos > 0 {
                        self.cursor_pos = self.cursor_pos - 1;
                        push_csi(&mut out.before, None, 0x44);
                    }
                } else if byte == 0x48 || byte == 0x31 {
                    let pos = self.cursor_pos;
                    self.cursor_pos = 0;
                    if pos > 0 {
                        push_csi(&mut out.before, Some(pos as u64), 0x44);
                    }
                } else if byte == 0x46 || byte == 0x34 {
                    let len = self.line_buf.len();
                    let pos = self.cursor_pos;
                    self.cursor_pos = len;
                    if pos < len {
                        push_csi(&mut out.before, Some((len - pos) as u64), 0x43);
                    }
                } else if byte == 0x33 {
                    self.ansi_state = AnsiState::BracketNum;
                    self.ansi_param = 3;
                }
            },
            AnsiState::BracketNum => {
                self.ansi_state = AnsiState::Normal;
                if byte == 0x7E && self.ansi_param == 3 {
                    let pos = self.cursor_pos;
                    if pos < self.line_buf.len() {
                        self.line_buf.remove(pos);
                        let suffix = tail_vec(self.line_buf.as_slice(), pos);
                        push_csi(&mut out.before, None, 0x4B);
                        push_all(&mut out.before, suffix.as_slice());
                        if suffix.len() > 0 {
                            push_csi(&mut out.before, Some(suffix.len() as u64), 0x44);
                        }
                    }
                }
            },
        }
        assert(self.model() =~= step(m, byte));
        out
    }
}


/// Every byte keeps the editor's invariant: the cursor stays within the line,
/// the history within its bound, and the history position on an entry.
pub proof fn lemma_step_keeps_wf(m: ShellModel, b: u8)
    requires
        shell_wf(m),
    ensures
        shell_wf(step(m, b)),
{
    lemma_last_match_bound(m.history, m.search);
    if m.cursor > 0 {
        lemma_word_start_bound(m.line.subrange(0, m.cursor));
    }
}


/// From a fresh line, the up arrow recalls the newest history entry, and the
/// down arrow then comes back to a fresh, empty line.
pub proof fn lemma_up_recalls_newest(m: ShellModel)
    requires
        m.hist_idx is None,
        m.history.len() > 0,
    ensures
        history_up_step(m).line == m.history.last(),
        history_up_step(m).cursor == m.history.last().len(),
        history_up_step(m).hist_idx == Some(m.history.len() - 1),
        history_down_step(history_up_step(m)).hist_idx is None,
        history_down_step(history_up_step(m)).line.len() == 0,
{
}

/// Each up arrow from a history entry moves one entry older, down to the
/// oldest, where it stays.
pub proof fn lemma_up_moves_older(m: ShellModel, k: int)
    requires
        m.hist_idx == Some(k),
        0 <= k < m.history.len(),
    ensures
        history_up_step(m).hist_idx == Some(if k > 0 { k - 1 } else { 0 }),
        history_up_step(m).line == m.history[if k > 0 { k - 1 } else { 0 }],
{
}

/// The down arrow undoes the up arrow: from a history entry other than the
/// oldest, up then down returns to that entry, with the line and cursor it
/// showed.
pub proof fn lemma_down_undoes_up(m: ShellModel)
    requires
        shell_wf(m),
        m.hist_idx matches Some(k) && 0 < k < m.history.len(),
        m.line == m.history[m.hist_idx->0],
        m.cursor == m.line.len(),
    ensures
        history_down_step(history_up_step(m)) == m,
{
    assert(history_down_step(history_up_step(m)) =~= m);
}

/// From any history entry but the newest, the down arrow shows the next
/// newer one.
pub proof fn lemma_down_moves_newer(m: ShellModel, k: int)
    requires
        m.hist_idx == Some(k),
        0 <= k,
        k + 1 < m.history.len(),
    ensures
        history_down_step(m).hist_idx == Some(k + 1),
        history_down_step(m).line == m.history[k + 1],
        history_down_step(m).cursor == m.history[k + 1].len(),
{
}


/// The lines of `d` split at line feeds (the last one may be empty).
pub open spec fn split_lines(d: Seq<u8>) -> Seq<Seq<u8>>
    decreases d.len(),
{
    if d.len() == 0 {
        seq![Seq::empty()]
    } else {
        let r = split_lines(d.drop_last());
        if d.last() == 10 {
            r.push(Seq::empty())
        } else {
            r.update(r.len() - 1, r.last().push(d.last()))
        }
    }
}

proof fn lemma_split_lines_nonempty(d: Seq<u8>)
    ensures
        split_lines(d).len() >= 1,
    decreases d.len(),
{
    if d.len() > 0 {
        lemma_split_lines_nonempty(d.drop_last());
    }
}

/// `h` after taking in the lines `segs`: each line is trimmed and kept when it is
/// not blank and the history has room.
pub open spec fn absorb(h: Seq<Seq<u8>>, segs: Seq<Seq<u8>>) -> Seq<Seq<u8>>
    decreases segs.len(),
{
    if segs.len() == 0 {
        h
    } else {
        let h2 = absorb(h, segs.drop_last());
        let t = text_trimmed(segs.last());
        if t.len() > 0 && h2.len() < MAX_HISTORY { h2.push(t) } else { h2 }
    }
}

proof fn lemma_absorb_bound(h: Seq<Seq<u8>>, segs: Seq<Seq<u8>>)
    requires
        h.len() <= MAX_HISTORY,
    ensures
        h.len() <= absorb(h, segs).len() <= MAX_HISTORY,
    decreases segs.len(),
{
    if segs.len() > 0 {
        lemma_absorb_bound(h, segs.drop_last());
    }
}

/// The history file's text: each entry followed by a line feed.
pub open spec fn history_text_of(h: Seq<Seq<u8>>) -> Seq<u8>
    decreases h.len(),
{
    if h.len() == 0 { Seq::empty() } else { history_text_of(h.drop_last()) + h.last().push(10u8) }
}

impl ShellState {
    /// How many lines have been submitted.
    pub fn commands_run(&self) -> (n: u64)
        ensures
            n == self.model().cmd_count,
    {
        self.cmd_count
    }

    /// The history.
    pub fn history(&self) -> (h: &Vec<Vec<u8>>)
        ensures
            seqs_of(h@) == self.model().history,
    {
        &self.history
    }

    /// The history as the text that is saved: one entry per line.
    pub fn history_text(&self) -> (t: Vec<u8>)
        ensures
            t@ == history_text_of(self.model().history),
    {
        let ghost h = self.model().history;
        let mut t: Vec<u8> = Vec::new();
        let mut k: usize = 0;
        while k < self.history.len()
            invariant
                k <= self.history@.len(),
                h == seqs_of(self.history@),
                t@ == history_text_of(h.subrange(0, k as int)),
            decreases self.history@.len() - k,
        {
            push_all(&mut t, self.history[k].as_slice());
            t.push(10);
            assert(h.subrange(0, k + 1).drop_last() =~= h.subrange(0, k as int));
            assert(h[k as int] == self.history@[k as int]@);
            k = k + 1;
        }
        assert(h.subrange(0, k as int) =~= h);
        t
    }

    /// Takes in a saved history file: when it is well-formed UTF-8, its trimmed
    /// non-blank lines are added while there is room.
    pub fn load_history(&mut self, data: &[u8])
        requires
            shell_wf(old(self).model()),
        ensures
            shell_wf(final(self).model()),
            final(self).model() == (ShellModel {
                history: if vstd::utf8::valid_utf8(data@) {
                    absorb(old(self).model().history, split_lines(data@))
                } else {
                    old(self).model().history
                },
                ..old(self).model()
            }),
    {
        let ghost m = self.model();
        if utf8_to_string(data).is_none() {
            return;
        }
        let ghost mut done: Seq<Seq<u8>> = Seq::empty();
        let mut seg: Vec<u8> = Vec::new();
        let mut i: usize = 0;
        proof {
            assert(data@.subrange(0, 0) =~= Seq::<u8>::empty());
        }
        while i < data.len()
            invariant
                i <= data@.len(),
                split_lines(data@.subrange(0, i as int)) == done.push(seg@),
                seqs_of(self.history@) == absorb(m.history, done),
                self.line_buf@ == m.line && self.cursor_pos == m.cursor && self.hist_idx == old(self).hist_idx,
                self.ansi_state == m.ansi && self.ansi_param == m.param && self.search_mode == m.search_mode,
                self.search_buf@ == m.search && self.last_was_tab == m.last_tab,
                self.cmd_count == old(self).cmd_count && self.initialized == m.initialized,
                shell_wf(m),
                m == old(self).model(),
            decreases data@.len() - i,
        {
            proof {
                assert(data@.subrange(0, i + 1).drop_last() =~= data@.subrange(0, i as int));
                lemma_absorb_bound(m.history, done);
            }
            if data[i] == 10 {
                let t = trim_text(seg.as_slice());
                let ghost h0 = seqs_of(self.history@);
                if t.len() > 0 && self.history.len() < MAX_HISTORY {
                    self.history.push(t);
                    assert(seqs_of(self.history@) =~= h0.push(t@));
                }
                proof {
                    assert(done.push(seg@).drop_last() =~= done);
                    done = done.push(seg@);
                }
                seg = Vec::new();
            } else {
                let ghost s0 = seg@;
                seg.push(data[i]);
                proof {
                    assert(done.push(s0).update(done.len() as int, s0.push(data@[i as int])) =~= done.push(seg@));
                }
            }
            i = i + 1;
        }
        assert(data@.subrange(0, data@.len() as int) =~= data@);
        let t = trim_text(seg.as_slice());
        let ghost h0 = seqs_of(self.history@);
        proof {
            lemma_absorb_bound(m.history, done);
            assert(done.push(seg@).drop_last() =~= done);
        }
        if t.len() > 0 && self.history.len() < MAX_HISTORY {
            self.history.push(t);
            assert(seqs_of(self.history@) =~= h0.push(t@));
        }
        proof {
            lemma_absorb_bound(m.history, split_lines(data@));
        }
        assert(self.model() =~= (ShellModel { history: absorb(m.history, split_lines(data@)), ..m }));
    }
}

/// The line `  s` that a command prints as its output.
pub fn cmd_output(s: &str) -> (v: Vec<u8>)
    ensures
        v@ == seq![32u8, 32u8] + s.spec_bytes() + seq![13u8, 10u8],
{
    let mut v: Vec<u8> = Vec::new();
    v.push(32);
    v.push(32);
    push_all(&mut v, s.as_bytes());
    v.push(13);
    v.push(10);
    assert(v@ =~= seq![32u8, 32u8] + s.spec_bytes() + seq![13u8, 10u8]);
    v
}

/// The red `[ERRO]` line that a command prints for an error.
pub fn cmd_error(s: &str) -> (v: Vec<u8>)
    ensures
        v@ == seq![32u8, 32u8, 0x1Bu8, 0x5Bu8, 0x33u8, 0x31u8, 0x6Du8, 0x5Bu8, 0x45u8, 0x52u8, 0x52u8, 0x4Fu8, 0x5Du8,
            0x1Bu8, 0x5Bu8, 0x30u8, 0x6Du8, 32u8] + s.spec_bytes() + seq![13u8, 10u8],
{
    let mut v: Vec<u8> = Vec::new();
    v.push(32);
    v.push(32);
    v.push(0x1B);
    v.push(0x5B);
    v.push(0x33);
    v.push(0x31);
    v.push(0x6D);
    v.push(0x5B);
    v.push(0x45);
    v.push(0x52);
    v.push(0x52);
    v.push(0x4F);
    v.push(0x5D);
    v.push(0x1B);
    v.push(0x5B);
    v.push(0x30);
    v.push(0x6D);
    v.push(32);
    push_all(&mut v, s.as_bytes());
    v.push(13);
    v.push(10);
    assert(v@ =~= seq![32u8, 32u8, 0x1Bu8, 0x5Bu8, 0x33u8, 0x31u8, 0x6Du8, 0x5Bu8, 0x45u8, 0x52u8, 0x52u8, 0x4Fu8, 0x5Du8,
        0x1Bu8, 0x5Bu8, 0x30u8, 0x6Du8, 32u8] + s.spec_bytes() + seq![13u8, 10u8]);
    v
}

/// The banner the console starts with.
pub open spec fn welcome_banner() -> Seq<u8> {
    "\r\n".spec_bytes()
        + "\x1B[1m\x1B[36m╔══════════════════════════════════════════════╗\x1B[0m\r\n".spec_bytes()
        + "\x1B[1m\x1B[36m║   SOC-D Shell v0.2 — Tab:complete ↑↓:hist  ║\x1B[0m\r\n".spec_bytes()
        + "\x1B[1m\x1B[36m╚══════════════════════════════════════════════╝\x1B[0m\r\n".spec_bytes()
        + "\r\n".spec_bytes()
}

/// Starts the console: the banner, the saved history (`history_file`, when there
/// is one) and the first prompt.
pub fn print_welcome(sh: &mut ShellState, history_file: Option<&[u8]>) -> (out: ShellOutput)
    requires
        shell_wf(old(sh).model()),
    ensures
        shell_wf(final(sh).model()),
        final(sh).model() == (ShellModel {
            history: match history_file {
                Some(d) => if vstd::utf8::valid_utf8(d@) {
                    absorb(old(sh).model().history, split_lines(d@))
                } else {
                    old(sh).model().history
                },
                None => old(sh).model().history,
            },
            initialized: true,
            ..old(sh).model()
        }),
        out.prompt && out.command.is_none() && !out.save_history,
        out.before@ == welcome_banner() + (if history_file is Some && final(sh).model().history.len() > 0 {
            "\x1B[2m[shell]\x1B[0m ".spec_bytes() + crate::util::dec_bytes(final(sh).model().history.len())
                + " entradas do historico carregadas\r\n".spec_bytes()
        } else {
            Seq::empty()
        }),
        out.after@.len() == 0,
{
    let mut out = ShellOutput::empty();
    push_text(&mut out.before, "\r\n");
    push_text(&mut out.before, "\x1B[1m\x1B[36m╔══════════════════════════════════════════════╗\x1B[0m\r\n");
    push_text(&mut out.before, "\x1B[1m\x1B[36m║   SOC-D Shell v0.2 — Tab:complete ↑↓:hist  ║\x1B[0m\r\n");
    push_text(&mut out.before, "\x1B[1m\x1B[36m╚══════════════════════════════════════════════╝\x1B[0m\r\n");
    push_text(&mut out.before, "\r\n");
    match history_file {
        Some(d) => {
            sh.load_history(d);
            let count = sh.history.len();
            if count > 0 {
                push_text(&mut out.before, "\x1B[2m[shell]\x1B[0m ");
                push_dec_bytes(&mut out.before, count as u64);
                push_text(&mut out.before, " entradas do historico carregadas\r\n");
            }
        },
        None => {},
    }
    sh.initialized = true;
    out.prompt = true;
    out
}

} // verus!
