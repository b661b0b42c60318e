use vstd::prelude::*;

use crate::errors::Error;
use vstd::string::StringSliceAdditionalSpecFns;

pub mod arch;
pub mod deb;
pub mod docker;
pub mod ext4;
pub mod file;
pub mod memory;
pub mod oci;
pub mod rpm;
pub mod tarball;

verus! {

/// Pre-flight self-validation, shared by artifacts and producers. The
/// format types implement it as an inherent `validate` with a full
/// contract; the trait records the common shape of the interface.
pub trait SelfValidation {
    fn validate_self(&self) -> Result<(), Error>;
}

/// The builder interface shared by the format builders. The builders carry
/// their contracts on their inherent methods.
pub trait SelfBuilder: Sized {
    type Output;

    fn new(name: &str) -> Self;

    fn build(&self) -> Result<Self::Output, Error>;
}

/// The UTF-8 bytes of a character sequence.
pub open spec fn chars_bytes(s: Seq<char>) -> Seq<u8> {
    vstd::utf8::encode_utf8(s)
}

pub open spec fn is_lower(c: u8) -> bool {
    97 <= c <= 122
}

pub open spec fn is_digit(c: u8) -> bool {
    48 <= c <= 57
}

pub open spec fn is_lower_digit(c: u8) -> bool {
    is_lower(c) || is_digit(c)
}

/// A character of an Arch or RPM package name body: lowercase, digit,
/// underscore or hyphen.
pub open spec fn pkg_name_char(c: u8) -> bool {
    is_lower_digit(c) || c == 95 || c == 45
}

/// An Arch or RPM package name: a lowercase letter, then name characters,
/// ending in a letter or digit.
pub open spec fn pkg_name_ok(b: Seq<u8>) -> bool {
    &&& b.len() >= 1
    &&& is_lower(b[0])
    &&& (b.len() == 1 || (is_lower_digit(b[b.len() - 1]) && forall|i: int|
        0 < i < b.len() - 1 ==> pkg_name_char(#[trigger] b[i])))
}

pub fn check_pkg_name(b: &Vec<u8>) -> (r: bool)
    ensures
        r == pkg_name_ok(b@),
{
    if b.len() == 0 {
        return false;
    }
    if !(97 <= b[0] && b[0] <= 122) {
        return false;
    }
    if b.len() == 1 {
        return true;
    }
    let last = b[b.len() - 1];
    if !(97 <= last && last <= 122 || 48 <= last && last <= 57) {
        return false;
    }
    let mut i: usize = 1;
    while i < b.len() - 1
        invariant
            b@.len() >= 2,
            1 <= i <= b@.len() - 1,
            forall|j: int| 0 < j < i ==> pkg_name_char(#[trigger] b@[j]),
        decreases b@.len() - i,
    {
        let c = b[i];
        if !(97 <= c && c <= 122 || 48 <= c && c <= 57 || c == 95 || c == 45) {
            return false;
        }
        i = i + 1;
    }
    true
}

/// A character of a version body: lowercase, digit, `+`, `.`, `_` or `-`.
pub open spec fn ver_char(c: u8) -> bool {
    is_lower_digit(c) || c == 43 || c == 46 || c == 95 || c == 45
}

/// A version split at position `k`: a leading letter or digit, version
/// characters up to the final `-`, and at least one digit after it.
pub open spec fn ver_ok_at(b: Seq<u8>, k: int) -> bool {
    &&& 0 < k <= b.len() - 2
    &&& b[k] == 45
    &&& is_lower_digit(b[0])
    &&& forall|i: int| 0 < i < k ==> ver_char(#[trigger] b[i])
    &&& forall|i: int| k < i < b.len() ==> is_digit(#[trigger] b[i])
}

/// A package version: versionish characters ending in `-` and a decimal
/// release number, as in `0.0.1-1`.
pub open spec fn ver_ok(b: Seq<u8>) -> bool {
    exists|k: int| ver_ok_at(b, k)
}

pub fn check_version(b: &Vec<u8>) -> (r: bool)
    ensures
        r == ver_ok(b@),
{
    let n = b.len();
    if n < 3 {
        proof {
            if ver_ok(b@) {
                let k = choose|k: int| ver_ok_at(b@, k);
            }
        }
        return false;
    }
    // find the last `-`
    let mut kl: usize = 0;
    let mut found = false;
    let mut i: usize = 0;
    while i < n
        invariant
            n == b@.len(),
            i <= n,
            found ==> kl < i && b@[kl as int] == 45 && (forall|j: int|
                kl < j < i ==> b@[j] != 45),
            !found ==> forall|j: int| 0 <= j < i ==> b@[j] != 45,
        decreases n - i,
    {
        if b[i] == 45 {
            kl = i;
            found = true;
        }
        i = i + 1;
    }
    if !found {
        proof {
            if ver_ok(b@) {
                let k = choose|k: int| ver_ok_at(b@, k);
            }
        }
        return false;
    }
    // the split must leave at least one digit and a nonempty body
    if kl == 0 || kl > n - 2 {
        proof {
            lemma_ver_witness_is_last(b@, kl as int);
        }
        return false;
    }
    if !(97 <= b[0] && b[0] <= 122 || 48 <= b[0] && b[0] <= 57) {
        proof {
            lemma_ver_witness_is_last(b@, kl as int);
        }
        return false;
    }
    let mut j: usize = 1;
    while j < kl
        invariant
            n == b@.len(),
            kl < n,
            b@[kl as int] == 45,
            forall|t: int| kl < t < n ==> b@[t] != 45,
            1 <= j <= kl,
            forall|t: int| 0 < t < j ==> ver_char(#[trigger] b@[t]),
        decreases kl - j,
    {
        let c = b[j];
        if !(97 <= c && c <= 122 || 48 <= c && c <= 57 || c == 43 || c == 46 || c == 95 || c == 45) {
            proof {
                lemma_ver_witness_is_last(b@, kl as int);
            }
            return false;
        }
        j = j + 1;
    }
    let mut t: usize = kl + 1;
    while t < n
        invariant
            n == b@.len(),
            kl < n,
            b@[kl as int] == 45,
            forall|u: int| kl < u < n ==> b@[u] != 45,
            kl + 1 <= t <= n,
            forall|u: int| kl < u < t ==> is_digit(#[trigger] b@[u]),
        decreases n - t,
    {
        if !(48 <= b[t] && b[t] <= 57) {
            proof {
                lemma_ver_witness_is_last(b@, kl as int);
            }
            return false;
        }
        t = t + 1;
    }
    proof {
        assert(ver_ok_at(b@, kl as int));
    }
    true
}

/// Any version split must sit at the last `-` of the string.
proof fn lemma_ver_witness_is_last(b: Seq<u8>, kl: int)
    requires
        0 <= kl < b.len(),
        b[kl] == 45,
        forall|j: int| kl < j < b.len() ==> b[j] != 45,
    ensures
        forall|k: int| ver_ok_at(b, k) ==> k == kl,
{
    assert forall|k: int| ver_ok_at(b, k) implies k == kl by {
        if k < kl {
            assert(is_digit(b[kl]));
        }
        if k > kl {
            assert(b[k] != 45);
        }
    }
}

/// A character of a Debian package name body: lowercase, digit, `+`, `-`
/// or `.`.
pub open spec fn deb_name_char(c: u8) -> bool {
    is_lower_digit(c) || c == 43 || c == 45 || c == 46
}

/// A Debian package name: a letter or digit, then at least one more name
/// character.
pub open spec fn deb_name_ok(b: Seq<u8>) -> bool {
    &&& b.len() >= 2
    &&& is_lower_digit(b[0])
    &&& forall|i: int| 1 <= i < b.len() ==> deb_name_char(#[trigger] b[i])
}

pub fn check_deb_name(b: &Vec<u8>) -> (r: bool)
    ensures
        r == deb_name_ok(b@),
{
    if b.len() < 2 {
        return false;
    }
    if !(97 <= b[0] && b[0] <= 122 || 48 <= b[0] && b[0] <= 57) {
        return false;
    }
    let mut i: usize = 1;
    while i < b.len()
        invariant
            b@.len() >= 2,
            1 <= i <= b@.len(),
            forall|j: int| 1 <= j < i ==> deb_name_char(#[trigger] b@[j]),
        decreases b@.len() - i,
    {
        let c = b[i];
        if !(97 <= c && c <= 122 || 48 <= c && c <= 57 || c == 43 || c == 45 || c == 46) {
            return false;
        }
        i = i + 1;
    }
    true
}

/// A maintainer with an address part starting at the `<` at index `k`:
/// `Name <address>`.
pub open spec fn maint_with_addr(b: Seq<u8>, k: int) -> bool {
    &&& 2 <= k <= b.len() - 3
    &&& b[k] == 60
    &&& b[k - 1] == 32
    &&& b[b.len() - 1] == 62
    &&& forall|i: int| 0 <= i < k - 1 ==> b[i] != 60
    &&& forall|i: int| k < i < b.len() - 1 ==> b[i] != 62
}

/// A Debian maintainer: a nonempty name free of `<`, optionally followed by
/// ` <address>`.
pub open spec fn maint_ok(b: Seq<u8>) -> bool {
    (b.len() > 0 && forall|i: int| 0 <= i < b.len() ==> b[i] != 60) || exists|k: int|
        maint_with_addr(b, k)
}

pub fn check_maintainer(b: &Vec<u8>) -> (r: bool)
    ensures
        r == maint_ok(b@),
{
    let n = b.len();
    // find the first `<`
    let mut fi: usize = 0;
    let mut found = false;
    let mut i: usize = 0;
    while i < n
        invariant
            n == b@.len(),
            i <= n,
            found ==> fi < i && b@[fi as int] == 60 && (forall|j: int| 0 <= j < fi ==> b@[j] != 60),
            !found ==> forall|j: int| 0 <= j < i ==> b@[j] != 60,
        decreases n - i,
    {
        if !found && b[i] == 60 {
            fi = i;
            found = true;
        }
        i = i + 1;
    }
    if !found {
        proof {
            if n == 0 && maint_ok(b@) {
                let k = choose|k: int| maint_with_addr(b@, k);
            }
        }
        return n > 0;
    }
    proof {
        assert forall|k: int| maint_with_addr(b@, k) implies k == fi by {
            if k < fi {
                assert(b@[k] != 60);
            }
            if k > fi {
                if fi < k - 1 {
                    assert(b@[fi as int] != 60);
                } else {
                    assert(b@[k - 1] == 32);
                }
            }
        }
    }
    if fi < 2 || n - fi < 3 {
        proof {
            lemma_no_other_maint(b@, fi as int);
        }
        return false;
    }
    if b[fi - 1] != 32 {
        proof {
            lemma_no_other_maint(b@, fi as int);
        }
        return false;
    }
    if b[n - 1] != 62 {
        proof {
            lemma_no_other_maint(b@, fi as int);
        }
        return false;
    }
    let mut j: usize = fi + 1;
    while j < n - 1
        invariant
            n == b@.len(),
            n >= 3,
            fi + 1 <= j <= n - 1,
            b@[fi as int] == 60,
            forall|t: int| 0 <= t < fi ==> b@[t] != 60,
            forall|t: int| fi < t < j ==> b@[t] != 62,
            forall|k: int| maint_with_addr(b@, k) ==> k == fi,
        decreases n - 1 - j,
    {
        if b[j] == 62 {
            proof {
                lemma_no_other_maint(b@, fi as int);
            }
            return false;
        }
        j = j + 1;
    }
    proof {
        assert(maint_with_addr(b@, fi as int));
    }
    true
}

/// When the string holds a `<`, only an address split at its first `<`
/// could make it valid.
proof fn lemma_no_other_maint(b: Seq<u8>, fi: int)
    requires
        0 <= fi < b.len(),
        b[fi] == 60,
        forall|k: int| maint_with_addr(b, k) ==> k == fi,
    ensures
        maint_ok(b) == maint_with_addr(b, fi),
{
    if maint_ok(b) && !maint_with_addr(b, fi) {
        if b.len() > 0 && forall|i: int| 0 <= i < b.len() ==> b[i] != 60 {
            assert(b[fi] != 60);
        } else {
            let k = choose|k: int| maint_with_addr(b, k);
        }
    }
}

/// Compares a byte vector against the UTF-8 bytes of a string.
pub fn bytes_is(b: &Vec<u8>, s: &str) -> (r: bool)
    ensures
        r == (b@ == s.spec_bytes()),
{
    let sb = s.as_bytes();
    if b.len() != sb.len() {
        proof {
            if b@ == s.spec_bytes() {
                assert(b@.len() == sb@.len());
            }
        }
        return false;
    }
    let mut i: usize = 0;
    while i < b.len()
        invariant
            b@.len() == sb@.len(),
            sb@ == s.spec_bytes(),
            i <= b@.len(),
            forall|j: int| 0 <= j < i ==> b@[j] == sb@[j],
        decreases b@.len() - i,
    {
        if b[i] != sb[i] {
            proof {
                if b@ == s.spec_bytes() {
                    assert(b@[i as int] == sb@[i as int]);
                }
            }
            return false;
        }
        i = i + 1;
    }
    proof {
        assert(b@ =~= sb@);
    }
    true
}

/// The architecture names Debian accepts.
pub open spec fn deb_arch_ok(b: Seq<u8>) -> bool {
    ||| b == chars_bytes(("amd64")@)
    ||| b == chars_bytes(("arm64")@)
    ||| b == chars_bytes(("armel")@)
    ||| b == chars_bytes(("armhf")@)
    ||| b == chars_bytes(("i386")@)
    ||| b == chars_bytes(("mips")@)
    ||| b == chars_bytes(("mips64el")@)
    ||| b == chars_bytes(("mipsel")@)
    ||| b == chars_bytes(("ppc64el")@)
    ||| b == chars_bytes(("s390x")@)
    ||| b == chars_bytes(("sh4")@)
    ||| b == chars_bytes(("sh4eb")@)
    ||| b == chars_bytes(("sparc")@)
    ||| b == chars_bytes(("sparc64")@)
}


/// Appends the UTF-8 bytes of a string to a byte buffer.
pub fn append_str(v: &mut Vec<u8>, s: &str)
    ensures
        final(v)@ == old(v)@ + s.spec_bytes(),
{
    let b = s.as_bytes();
    let mut i: usize = 0;
    while i < b.len()
        invariant
            b@ == s.spec_bytes(),
            i <= b@.len(),
            v@ =~= old(v)@ + b@.take(i as int),
        decreases b@.len() - i,
    {
        v.push(b[i]);
        proof {
            assert(v@ =~= old(v)@ + b@.take(i + 1));
        }
        i = i + 1;
    }
    proof {
        assert(b@.take(b@.len() as int) =~= b@);
        assert(v@ =~= old(v)@ + b@);
    }
}

/// Appends a byte vector to a byte buffer.
pub fn append_bytes(v: &mut Vec<u8>, b: &Vec<u8>)
    ensures
        final(v)@ == old(v)@ + b@,
{
    let mut i: usize = 0;
    while i < b.len()
        invariant
            i <= b@.len(),
            v@ =~= old(v)@ + b@.take(i as int),
        decreases b@.len() - i,
    {
        v.push(b[i]);
        proof {
            assert(v@ =~= old(v)@ + b@.take(i + 1));
        }
        i = i + 1;
    }
    proof {
        assert(b@.take(b@.len() as int) =~= b@);
        assert(v@ =~= old(v)@ + b@);
    }
}

/// The views of a vector of strings.
pub open spec fn strings_view(s: Seq<String>) -> Seq<Seq<char>> {
    Seq::new(s.len(), |i: int| s[i]@)
}


/// A nonempty ASCII character sequence without `/` encodes to a
/// well-formed path segment.
pub proof fn lemma_ascii_seg_wf(s: Seq<char>)
    requires
        s.len() > 0,
        vstd::utf8::is_ascii_chars(s),
        forall|i: int| 0 <= i < s.len() ==> #[trigger] s[i] != '/',
    ensures
        crate::paths::seg_wf(chars_bytes(s)),
{
    vstd::utf8::is_ascii_chars_encode_utf8(s);
    assert forall|i: int| 0 <= i < chars_bytes(s).len() implies #[trigger] chars_bytes(s)[i]
        != 47u8 by {
        assert(s[i] as u8 == vstd::utf8::encode_utf8(s)[i]);
        assert(s[i] != '/');
    }
}

/// The literal `control` is a well-formed segment.
pub proof fn lemma_control_seg()
    ensures
        crate::paths::seg_wf(chars_bytes(("control")@)),
{
    reveal_strlit("control");
    let s = ("control")@;
    assert forall|i: int| 0 <= i < s.len() implies '\0' <= #[trigger] s[i] <= '\u{7f}' && s[i]
        != '/' by {
        if i == 0 {
            assert(s[0] == 'c');
        } else if i == 1 {
            assert(s[1] == 'o');
        } else if i == 2 {
            assert(s[2] == 'n');
        } else if i == 3 {
            assert(s[3] == 't');
        } else if i == 4 {
            assert(s[4] == 'r');
        } else if i == 5 {
            assert(s[5] == 'o');
        } else {
            assert(s[6] == 'l');
        }
    }
    assert(vstd::utf8::is_ascii_chars(s));
    lemma_ascii_seg_wf(s);
}


/// The literal `md5sums` is a well-formed segment.
pub proof fn lemma_md5sums_seg()
    ensures
        crate::paths::seg_wf(chars_bytes(("md5sums")@)),
{
    reveal_strlit("md5sums");
    let s = ("md5sums")@;
    assert forall|i: int| 0 <= i < s.len() implies '\0' <= #[trigger] s[i] <= '\u{7f}' && s[i]
        != '/' by {
        if i == 0 {
            assert(s[0] == 'm');
        } else if i == 1 {
            assert(s[1] == 'd');
        } else if i == 2 {
            assert(s[2] == '5');
        } else if i == 3 {
            assert(s[3] == 's');
        } else if i == 4 {
            assert(s[4] == 'u');
        } else if i == 5 {
            assert(s[5] == 'm');
        } else {
            assert(s[6] == 's');
        }
    }
    assert(vstd::utf8::is_ascii_chars(s));
    lemma_ascii_seg_wf(s);
}

/// The literal `postinst` is a well-formed segment.
pub proof fn lemma_postinst_seg()
    ensures
        crate::paths::seg_wf(chars_bytes(("postinst")@)),
{
    reveal_strlit("postinst");
    let s = ("postinst")@;
    assert forall|i: int| 0 <= i < s.len() implies '\0' <= #[trigger] s[i] <= '\u{7f}' && s[i]
        != '/' by {
        if i == 0 {
            assert(s[0] == 'p');
        } else if i == 1 {
            assert(s[1] == 'o');
        } else if i == 2 {
            assert(s[2] == 's');
        } else if i == 3 {
            assert(s[3] == 't');
        } else if i == 4 {
            assert(s[4] == 'i');
        } else if i == 5 {
            assert(s[5] == 'n');
        } else if i == 6 {
            assert(s[6] == 's');
        } else {
            assert(s[7] == 't');
        }
    }
    assert(vstd::utf8::is_ascii_chars(s));
    lemma_ascii_seg_wf(s);
}

/// The literal `prerm` is a well-formed segment.
pub proof fn lemma_prerm_seg()
    ensures
        crate::paths::seg_wf(chars_bytes(("prerm")@)),
{
    reveal_strlit("prerm");
    let s = ("prerm")@;
    assert forall|i: int| 0 <= i < s.len() implies '\0' <= #[trigger] s[i] <= '\u{7f}' && s[i]
        != '/' by {
        if i == 0 {
            assert(s[0] == 'p');
        } else if i == 1 {
            assert(s[1] == 'r');
        } else if i == 2 {
            assert(s[2] == 'e');
        } else if i == 3 {
            assert(s[3] == 'r');
        } else {
            assert(s[4] == 'm');
        }
    }
    assert(vstd::utf8::is_ascii_chars(s));
    lemma_ascii_seg_wf(s);
}

/// The literal `.PKGINFO` is a well-formed segment.
pub proof fn lemma_pkginfo_seg()
    ensures
        crate::paths::seg_wf(chars_bytes((".PKGINFO")@)),
{
    reveal_strlit(".PKGINFO");
    let s = (".PKGINFO")@;
    assert forall|i: int| 0 <= i < s.len() implies '\0' <= #[trigger] s[i] <= '\u{7f}' && s[i]
        != '/' by {
        if i == 0 {
            assert(s[0] == '.');
        } else if i == 1 {
            assert(s[1] == 'P');
        } else if i == 2 {
            assert(s[2] == 'K');
        } else if i == 3 {
            assert(s[3] == 'G');
        } else if i == 4 {
            assert(s[4] == 'I');
        } else if i == 5 {
            assert(s[5] == 'N');
        } else if i == 6 {
            assert(s[6] == 'F');
        } else {
            assert(s[7] == 'O');
        }
    }
    assert(vstd::utf8::is_ascii_chars(s));
    lemma_ascii_seg_wf(s);
}

} // verus!
