//! Static lesson-content resources: routing a requested path to the bundle
//! folder it lives in, and the directory listing order.  Reading the files
//! and directories themselves is the embedding program's task.
use vstd::prelude::*;
use vstd::string::StringSliceAdditionalSpecFns;
use vstd::utf8::{encode_utf8, is_char_boundary};

verus! {

/// One entry of a resource directory listing.
#[derive(Debug)]
pub struct ResourceEntry {
    pub name: String,
    pub is_dir: bool,
}

/// Whether a requested path asks for the exercises bundle: its bytes start
/// with the `rustlings/` prefix, and what follows the prefix starts at a
/// character boundary.
pub open spec fn is_rustlings_path(path: &str) -> bool {
    let b = path.spec_bytes();
    &&& is_char_boundary(b, 10)
    &&& b.take(10) == encode_utf8("rustlings/"@)
}

/// Splits a requested resource path into the bundle subfolder it lives in
/// and the path relative to that folder: a path under `rustlings/` is
/// looked up in the exercises bundle with the prefix stripped, anything
/// else in the content bundle as it stands.
pub fn resource_route(path: &str) -> (r: (String, String))
    ensures
        is_rustlings_path(path) ==> r.0@ == "rustlings"@ && encode_utf8(r.1@)
            == path.spec_bytes().skip(10),
        !is_rustlings_path(path) ==> r.0@ == "content"@ && r.1@ == path@,
{
    if path.is_char_boundary(10) {
        proof {
            vstd::utf8::encode_utf8_valid_utf8(path@);
            assert(vstd::utf8::valid_utf8(path.spec_bytes()));
            assert(path.spec_bytes().len() >= 10);
        }
        let (head, tail) = path.split_at(10);
        let hb = head.as_bytes();
        let pb = "rustlings/".as_bytes();
        if eq_bytes(hb, pb) {
            proof {
                assert(path.spec_bytes().take(10) =~= head.spec_bytes());
                assert(tail.spec_bytes() =~= path.spec_bytes().skip(10));
            }
            return ("rustlings".to_owned(), tail.to_owned());
        }
        proof {
            assert(path.spec_bytes().take(10) =~= head.spec_bytes());
        }
    }
    ("content".to_owned(), path.to_owned())
}

/// Bytewise equality of two byte slices.
fn eq_bytes(a: &[u8], b: &[u8]) -> (r: bool)
    ensures
        r == (a@ == b@),
{
    if a.len() != b.len() {
        proof {
            assert(a@.len() != b@.len());
        }
        return false;
    }
    let n = a.len();
    let mut i: usize = 0;
    while i < n
        invariant
            n == a@.len(),
            n == b@.len(),
            i <= n,
            forall|j: int| 0 <= j < i ==> a@[j] == b@[j],
        decreases n - i,
    {
        if a[i] != b[i] {
            return false;
        }
        i = i + 1;
    }
    proof {
        assert(a@ =~= b@);
    }
    true
}

/// Lexicographic order on byte sequences: the order a directory listing is
/// reported in, applied to the UTF-8 bytes of the entry names.
pub open spec fn lex_leq(a: Seq<u8>, b: Seq<u8>) -> bool
    decreases a.len(),
{
    if a.len() == 0 {
        true
    } else if b.len() == 0 {
        false
    } else if a.first() < b.first() {
        true
    } else if a.first() > b.first() {
        false
    } else {
        lex_leq(a.drop_first(), b.drop_first())
    }
}

/// The sort key of a listing entry: the UTF-8 bytes of its name.
pub open spec fn name_key(e: ResourceEntry) -> Seq<u8> {
    encode_utf8(e.name@)
}

/// Whether a listing is in ascending name order.
pub open spec fn sorted_by_name(s: Seq<ResourceEntry>) -> bool {
    forall|i: int, j: int| 0 <= i < j < s.len() ==> lex_leq(name_key(s[i]), name_key(s[j]))
}

/// The order is total: two keys compare one way or the other.
proof fn lemma_lex_total(a: Seq<u8>, b: Seq<u8>)
    ensures
        lex_leq(a, b) || lex_leq(b, a),
    decreases a.len(),
{
    if a.len() > 0 && b.len() > 0 && a.first() == b.first() {
        lemma_lex_total(a.drop_first(), b.drop_first());
    }
}

/// The order is transitive.
proof fn lemma_lex_trans(a: Seq<u8>, b: Seq<u8>, c: Seq<u8>)
    requires
        lex_leq(a, b),
        lex_leq(b, c),
    ensures
        lex_leq(a, c),
    decreases a.len(),
{
    if a.len() > 0 && b.len() > 0 && c.len() > 0 && a.first() == b.first() && b.first()
        == c.first() {
        lemma_lex_trans(a.drop_first(), b.drop_first(), c.drop_first());
    }
}

/// Compares two byte slices in lexicographic order.
fn lex_leq_bytes(a: &[u8], b: &[u8]) -> (r: bool)
    ensures
        r == lex_leq(a@, b@),
{
    let an = a.len();
    let bn = b.len();
    let mut i: usize = 0;
    proof {
        assert(a@.skip(0) =~= a@);
        assert(b@.skip(0) =~= b@);
    }
    while i < an && i < bn && a[i] == b[i]
        invariant
            an == a@.len(),
            bn == b@.len(),
            i <= an,
            i <= bn,
            lex_leq(a@, b@) == lex_leq(a@.skip(i as int), b@.skip(i as int)),
            forall|j: int| 0 <= j < i ==> a@[j] == b@[j],
        decreases an - i,
    {
        proof {
            let sa = a@.skip(i as int);
            let sb = b@.skip(i as int);
            assert(sa.first() == a@[i as int]);
            assert(sb.first() == b@[i as int]);
            assert(sa.drop_first() =~= a@.skip(i + 1));
            assert(sb.drop_first() =~= b@.skip(i + 1));
        }
        i = i + 1;
    }
    proof {
        let sa = a@.skip(i as int);
        let sb = b@.skip(i as int);
        if i < an {
            assert(sa.first() == a@[i as int]);
        }
        if i < bn {
            assert(sb.first() == b@[i as int]);
        }
        assert(sa.len() == an - i);
        assert(sb.len() == bn - i);
    }
    if i == an {
        true
    } else if i == bn {
        false
    } else {
        a[i] < b[i]
    }
}

/// Sorts a directory listing by entry name, ascending: the order the
/// listing is reported in.  The result holds exactly the given entries.
pub fn sort_resources(entries: Vec<ResourceEntry>) -> (r: Vec<ResourceEntry>)
    ensures
        sorted_by_name(r@),
        r@.to_multiset() == entries@.to_multiset(),
{
    broadcast use vstd::seq_lib::group_to_multiset_ensures;

    let ghost all = entries@;
    let mut input = entries;
    let mut result: Vec<ResourceEntry> = Vec::new();
    proof {
        assert(result@.to_multiset().add(input@.to_multiset()) =~= all.to_multiset());
    }
    while input.len() > 0
        invariant
            sorted_by_name(result@),
            result@.to_multiset().add(input@.to_multiset()) == all.to_multiset(),
        decreases input.len(),
    {
        let ghost in0 = input@;
        let e = match input.pop() {
            Some(e) => e,
            None => {
                proof {
                    assert(false);
                }
                continue ;
            },
        };
        proof {
            input@.to_multiset_ensures();
            assert(input@.push(e) =~= in0);
            assert(input@.push(e).to_multiset() =~= input@.to_multiset().insert(e));
            assert(in0.to_multiset() =~= input@.to_multiset().insert(e));
        }
        let ghost res0 = result@;
        let mut p: usize = 0;
        while p < result.len() && lex_leq_bytes(
            result[p].name.as_str().as_bytes(),
            e.name.as_str().as_bytes(),
        )
            invariant
                result@ == res0,
                p <= result@.len(),
                forall|j: int| 0 <= j < p ==> lex_leq(name_key(res0[j]), name_key(e)),
            decreases result@.len() - p,
        {
            p = p + 1;
        }
        proof {
            if (p as int) < res0.len() {
                lemma_lex_total(name_key(res0[p as int]), name_key(e));
            }
        }
        result.insert(p, e);
        proof {
            let res1 = result@;
            assert(res1.remove(p as int) =~= res0);
            assert(res1[p as int] == e);
            assert(res1.to_multiset() =~= res0.to_multiset().insert(e)) by {
                res1.to_multiset_ensures();
                assert(res1.remove(p as int).to_multiset() =~= res1.to_multiset().remove(
                    res1[p as int],
                ));
                assert(res1.remove(p as int).to_multiset() =~= res1.to_multiset().remove(e));
                assert(res1.contains(e));
                assert(res1.to_multiset().count(e) > 0);
            }
            assert(result@.to_multiset().add(input@.to_multiset()) =~= all.to_multiset());
            assert forall|i: int, j: int| 0 <= i < j < res1.len() implies lex_leq(
                name_key(res1[i]),
                name_key(res1[j]),
            ) by {
                if j < p as int {
                    assert(res1[i] == res0[i] && res1[j] == res0[j]);
                } else if i < p as int && j == p as int {
                    assert(res1[i] == res0[i]);
                } else if i < p as int && j > p as int {
                    assert(res1[i] == res0[i] && res1[j] == res0[j - 1]);
                } else if i == p as int {
                    assert(res1[j] == res0[j - 1]);
                    assert(lex_leq(name_key(e), name_key(res0[p as int])));
                    if j - 1 > p as int {
                        lemma_lex_trans(
                            name_key(e),
                            name_key(res0[p as int]),
                            name_key(res0[j - 1]),
                        );
                    }
                } else {
                    assert(res1[i] == res0[i - 1] && res1[j] == res0[j - 1]);
                }
            }
        }
    }
    result
}

} // verus!
