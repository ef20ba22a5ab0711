use vstd::prelude::*;

verus! {

/// The fully qualified record name `{subdomain}.{domain}.`.
pub open spec fn target_name(domain: Seq<char>, subdomain: Seq<char>) -> Seq<char> {
    subdomain + seq!['.'] + domain + seq!['.']
}

/// Whether `needle` occurs in `hay` as a contiguous run of characters.
pub open spec fn contains_seq(hay: Seq<char>, needle: Seq<char>) -> bool {
    exists|i: int| 0 <= i && i + needle.len() <= hay.len() && #[trigger] hay.subrange(i, i + needle.len()) == needle
}

/// How many `/` characters `s` holds.
pub open spec fn slash_count(s: Seq<char>) -> nat
    decreases s.len(),
{
    if s.len() == 0 {
        0
    } else {
        slash_count(s.drop_last()) + if s.last() == '/' { 1nat } else { 0nat }
    }
}

/// The characters of `s` that lie between its `n`-th and `(n+1)`-th `/`
/// (segments counted from zero), that is segment `n` of `s` split on `/`.
pub open spec fn segment(s: Seq<char>, n: nat) -> Seq<char>
    decreases s.len(),
{
    if s.len() == 0 {
        Seq::empty()
    } else {
        let p = s.drop_last();
        if s.last() != '/' && slash_count(p) == n {
            segment(p, n).push(s.last())
        } else {
            segment(p, n)
        }
    }
}

/// Builds the fully qualified record name, trailing dot included.
pub fn fully_qualified_name(domain: &str, subdomain: &str) -> (r: String)
    ensures
        r@ == target_name(domain@, subdomain@),
{
    let dot = ".";
    proof {
        reveal_strlit(".");
    }
    let mut name = String::from_str(subdomain);
    name.append(dot);
    name.append(domain);
    name.append(dot);
    name
}

/// Whether `needle` occurs in `hay`; the empty needle occurs everywhere.
pub fn contains_str(hay: &str, needle: &str) -> (r: bool)
    ensures
        r == contains_seq(hay@, needle@),
{
    let h = hay.unicode_len();
    let n = needle.unicode_len();
    if n > h {
        return false;
    }
    let mut i: usize = 0;
    while i <= h - n
        invariant
            h == hay@.len(),
            n == needle@.len(),
            n <= h,
            i <= h - n + 1,
            forall|k: int| 0 <= k < i ==> #[trigger] hay@.subrange(k, k + n) != needle@,
        decreases h - n + 1 - i,
    {
        let mut j: usize = 0;
        let mut same = true;
        while j < n
            invariant
                h == hay@.len(),
                n == needle@.len(),
                i + n <= h,
                j <= n,
                same == (forall|m: int| 0 <= m < j ==> hay@[i + m] == needle@[m]),
            decreases n - j,
        {
            if hay.get_char(i + j) != needle.get_char(j) {
                same = false;
            }
            j = j + 1;
        }
        if same {
            assert(hay@.subrange(i as int, i + n) =~= needle@);
            return true;
        }
        assert(hay@.subrange(i as int, i + n) != needle@) by {
            let m = choose|m: int| 0 <= m < n && hay@[i + m] != needle@[m];
            assert(hay@.subrange(i as int, i + n)[m] == hay@[i + m]);
        }
        i = i + 1;
    }
    proof {
        assert forall|k: int| 0 <= k && k + needle@.len() <= hay@.len() implies #[trigger] hay@.subrange(k, k + needle@.len()) != needle@ by {
            assert(k < i);
        }
    }
    false
}

/// Segment `n` of `s` split on `/`, or `None` where `s` has fewer than `n`
/// slashes.
pub fn nth_segment(s: &str, n: usize) -> (r: Option<String>)
    ensures
        r is Some <==> slash_count(s@) >= n,
        r matches Some(seg) ==> seg@ == segment(s@, n as nat),
{
    let len = s.unicode_len();
    let mut seen: usize = 0;
    let mut out = String::new();
    let mut i: usize = 0;
    while i < len
        invariant
            len == s@.len(),
            i <= len,
            seen <= i,
            seen as nat == slash_count(s@.take(i as int)),
            out@ == segment(s@.take(i as int), n as nat),
        decreases len - i,
    {
        assert(s@.take(i + 1).drop_last() =~= s@.take(i as int));
        let c = s.get_char(i);
        if c == '/' {
            seen = seen + 1;
        } else if seen == n {
            out.append(s.substring_char(i, i + 1));
            assert(s@.subrange(i as int, i + 1) =~= seq![c]);
        }
        i = i + 1;
    }
    assert(s@.take(len as int) =~= s@);
    if seen >= n {
        Some(out)
    } else {
        None
    }
}

} // verus!
