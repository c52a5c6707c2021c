use vstd::prelude::*;
use vstd::string::StringSliceAdditionalSpecFns;
use vstd::utf8::encode_utf8;
use core::cmp::Ordering;
use crate::order::{bytes_le, bytes_lt, compare_bytes, lemma_le_lt, lemma_lt_asymmetric, lemma_lt_le};
use crate::record::{FetchResult, result_urls};

verus! {

broadcast use vstd::seq_lib::group_to_multiset_ensures;

/// The URLs of a sequence of strings, as a set.
pub open spec fn url_set(urls: Seq<String>) -> Set<Seq<char>> {
    urls.map_values(|s: String| s@).to_set()
}

/// The members of `a + b` are those of `a` and those of `b`.
pub proof fn lemma_concat_to_set<A>(a: Seq<A>, b: Seq<A>)
    ensures
        (a + b).to_set() == a.to_set().union(b.to_set()),
{
    assert forall|x: A| (a + b).to_set().contains(x) implies a.to_set().union(b.to_set()).contains(x) by {
        let k = choose|k: int| 0 <= k < (a + b).len() && (a + b)[k] == x;
        if k < a.len() {
            assert(a[k] == x);
        } else {
            assert(b[k - a.len()] == x);
        }
    }
    assert forall|x: A| a.to_set().union(b.to_set()).contains(x) implies (a + b).to_set().contains(x) by {
        if a.contains(x) {
            let k = choose|k: int| 0 <= k < a.len() && a[k] == x;
            assert((a + b)[k] == x);
        } else {
            let k = choose|k: int| 0 <= k < b.len() && b[k] == x;
            assert((a + b)[k + a.len()] == x);
        }
    }
    assert((a + b).to_set() =~= a.to_set().union(b.to_set()));
}

/// The URLs already present in some bundle, gathered bundle after bundle.
pub struct CompletedUrls {
    urls: Vec<String>,
}

impl View for CompletedUrls {
    type V = Set<Seq<char>>;

    closed spec fn view(&self) -> Set<Seq<char>> {
        url_set(self.urls@)
    }
}

impl CompletedUrls {
    /// No URL is completed yet.
    pub fn new() -> (r: CompletedUrls)
        ensures
            r@ == Set::<Seq<char>>::empty(),
    {
        let r = CompletedUrls { urls: Vec::new() };
        proof {
            assert(r@ =~= Set::<Seq<char>>::empty());
        }
        r
    }

    /// Adds the URLs of every result of one bundle.
    pub fn record_bundle(&mut self, bundle: &Vec<FetchResult>)
        ensures
            final(self)@ == old(self)@.union(result_urls(bundle@).to_set()),
    {
        let ghost before = self.urls@.map_values(|s: String| s@);
        let mut i: usize = 0;
        while i < bundle.len()
            invariant
                i <= bundle.len(),
                self.urls@.map_values(|s: String| s@) == before + result_urls(bundle@.subrange(0, i as int)),
            decreases bundle.len() - i,
        {
            let ghost prev = self.urls@;
            self.urls.push(bundle[i].url.clone());
            proof {
                assert(self.urls@.map_values(|s: String| s@) =~= prev.map_values(|s: String| s@).push(bundle@[i as int].url@));
                assert(result_urls(bundle@.subrange(0, i + 1)) =~= result_urls(bundle@.subrange(0, i as int)).push(bundle@[i as int].url@));
                assert(self.urls@.map_values(|s: String| s@) =~= before + result_urls(bundle@.subrange(0, i + 1)));
            }
            i = i + 1;
        }
        proof {
            assert(bundle@.subrange(0, bundle@.len() as int) == bundle@);
            lemma_concat_to_set(before, result_urls(bundle@));
        }
    }

    /// The same URLs, sorted for lookup.
    pub fn finish(self) -> (r: CompletedSet)
        ensures
            r@ == self@,
    {
        let mut urls = self.urls;
        let ghost before = urls@;
        sort_strings(&mut urls);
        proof {
            let f = |s: String| s@;
            assert forall|u: Seq<char>| url_set(urls@).contains(u) <==> url_set(before).contains(u) by {
                if url_set(urls@).contains(u) {
                    let k = choose|k: int| 0 <= k < urls@.len() && #[trigger] urls@.map_values(f)[k] == u;
                    assert(urls@.contains(urls@[k]));
                    assert(before.to_multiset().count(urls@[k]) > 0);
                    assert(before.contains(urls@[k]));
                    let m = choose|m: int| 0 <= m < before.len() && before[m] == urls@[k];
                    assert(before.map_values(f)[m] == u);
                }
                if url_set(before).contains(u) {
                    let m = choose|m: int| 0 <= m < before.len() && #[trigger] before.map_values(f)[m] == u;
                    assert(before.contains(before[m]));
                    assert(urls@.to_multiset().count(before[m]) > 0);
                    assert(urls@.contains(before[m]));
                    let k = choose|k: int| 0 <= k < urls@.len() && urls@[k] == before[m];
                    assert(urls@.map_values(f)[k] == u);
                }
            }
            assert(url_set(urls@) =~= url_set(before));
        }
        CompletedSet { urls }
    }
}

/// The bytes of a string, in UTF-8.
pub open spec fn utf8_of(s: String) -> Seq<u8> {
    encode_utf8(s@)
}

/// Strings in non-decreasing byte order.
pub open spec fn sorted_by_bytes(v: Seq<String>) -> bool {
    forall|i: int, j: int| 0 <= i < j < v.len() ==> bytes_le(utf8_of(#[trigger] v[i]), utf8_of(#[trigger] v[j]))
}

/// Relies on `slice::sort_unstable` on `String`s: afterwards the vector holds
/// the same strings, sorted by `Ord for str`, which orders strings
/// lexicographically by their bytes.
#[verifier::external_body]
fn sort_strings(v: &mut Vec<String>)
    ensures
        final(v)@.to_multiset() == old(v)@.to_multiset(),
        sorted_by_bytes(final(v)@),
{
    v.sort_unstable();
}

/// The completed URLs, sorted by their bytes for lookup by binary search.
pub struct CompletedSet {
    urls: Vec<String>,
}

impl View for CompletedSet {
    type V = Set<Seq<char>>;

    closed spec fn view(&self) -> Set<Seq<char>> {
        url_set(self.urls@)
    }
}

impl CompletedSet {
    #[verifier::type_invariant]
    closed spec fn is_sorted(self) -> bool {
        sorted_by_bytes(self.urls@)
    }

    /// Whether `url` is completed.
    pub fn contains(&self, url: &String) -> (r: bool)
        ensures
            r == self@.contains(url@),
    {
        proof {
            use_type_invariant(self);
        }
        let target = url.as_str().as_bytes();
        let ghost t = utf8_of(*url);
        let mut lo: usize = 0;
        let mut hi: usize = self.urls.len();
        while lo < hi
            invariant
                lo <= hi <= self.urls@.len(),
                target@ == t,
                t == utf8_of(*url),
                sorted_by_bytes(self.urls@),
                forall|i: int| 0 <= i < lo ==> bytes_lt(utf8_of(#[trigger] self.urls@[i]), t),
                forall|i: int| hi <= i < self.urls@.len() ==> bytes_lt(t, utf8_of(#[trigger] self.urls@[i])),
            decreases hi - lo,
        {
            let mid = lo + (hi - lo) / 2;
            let here = self.urls[mid].as_str().as_bytes();
            let ghost m = utf8_of(self.urls@[mid as int]);
            match compare_bytes(here, target) {
                Ordering::Less => {
                    proof {
                        assert forall|i: int| 0 <= i < mid + 1 implies bytes_lt(utf8_of(#[trigger] self.urls@[i]), t) by {
                            if i < mid {
                                assert(bytes_le(utf8_of(self.urls@[i]), utf8_of(self.urls@[mid as int])));
                                lemma_le_lt(utf8_of(self.urls@[i]), m, t);
                            }
                        }
                    }
                    lo = mid + 1;
                },
                Ordering::Greater => {
                    proof {
                        assert forall|i: int| mid <= i < self.urls@.len() implies bytes_lt(t, utf8_of(#[trigger] self.urls@[i])) by {
                            if i > mid {
                                assert(bytes_le(utf8_of(self.urls@[mid as int]), utf8_of(self.urls@[i])));
                                lemma_lt_le(t, m, utf8_of(self.urls@[i]));
                            }
                        }
                    }
                    hi = mid;
                },
                Ordering::Equal => {
                    proof {
                        vstd::utf8::encode_utf8_decode_utf8(self.urls@[mid as int]@);
                        vstd::utf8::encode_utf8_decode_utf8(url@);
                        assert(self.urls@.map_values(|s: String| s@)[mid as int] == url@);
                    }
                    return true;
                },
            }
        }
        proof {
            if self@.contains(url@) {
                let views = self.urls@.map_values(|s: String| s@);
                let k = choose|k: int| 0 <= k < views.len() && #[trigger] views[k] == url@;
                assert(self.urls@[k]@ == url@);
                assert(utf8_of(self.urls@[k]) == t);
                if k < lo {
                    lemma_lt_asymmetric(utf8_of(self.urls@[k]), t);
                } else {
                    lemma_lt_asymmetric(t, utf8_of(self.urls@[k]));
                }
            }
        }
        false
    }
}

} // verus!
