//! Display-name preparation: dropping hidden entries and sorting the listing
//! byte-wise, the two steps a directory's raw entries go through before
//! layout.

use std::path::PathBuf;
use vstd::prelude::*;

verus! {

use vstd::seq_lib::group_seq_lib_default;
use vstd::seq_lib::group_to_multiset_ensures;
use vstd::string::StrSliceExecFns;
use vstd::string::StringSliceAdditionalSpecFns;
use vstd::utf8::encode_utf8;

/// A name is hidden when it starts with a dot.
pub open spec fn hidden(name: Seq<char>) -> bool {
    name.len() > 0 && name[0] == '.'
}

/// The subsequence of names that are not hidden, in their original order.
pub open spec fn visible_names(names: Seq<Seq<char>>) -> Seq<Seq<char>> {
    names.filter(|n: Seq<char>| !hidden(n))
}

/// Keep only the names that do not start with a dot, in their original order.
pub fn filter_invisible(names: &Vec<String>) -> (out: Vec<String>)
    ensures
        out.deep_view() == visible_names(names.deep_view()),
{
    broadcast use group_seq_lib_default;

    let ghost dv = names.deep_view();
    let mut out: Vec<String> = Vec::new();
    let mut i: usize = 0;
    proof {
        assert(dv.take(0) =~= Seq::<Seq<char>>::empty());
        assert(out.deep_view() =~= visible_names(dv.take(0)));
    }
    while i < names.len()
        invariant
            dv == names.deep_view(),
            dv.len() == names@.len(),
            i <= names@.len(),
            out.deep_view() == visible_names(dv.take(i as int)),
        decreases names@.len() - i,
    {
        let ghost prev = out.deep_view();
        proof {
            assert(dv[i as int] == names@[i as int]@);
        }
        let name = &names[i];
        let keep = if name.as_str().is_empty() {
            true
        } else {
            name.as_str().get_char(0) != '.'
        };
        if keep {
            out.push(name.clone());
            proof {
                assert(out.deep_view() =~= prev.push(dv[i as int]));
            }
        }
        proof {
            let pred = |n: Seq<char>| !hidden(n);
            reveal_with_fuel(Seq::<Seq<char>>::filter, 2);
            assert(dv.take(i + 1) =~= dv.take(i as int) + seq![dv[i as int]]);
            assert(seq![dv[i as int]].filter(pred) =~= if pred(dv[i as int]) {
                seq![dv[i as int]]
            } else {
                Seq::<Seq<char>>::empty()
            });
            assert(out.deep_view() =~= visible_names(dv.take(i + 1)));
        }
        i = i + 1;
    }
    proof {
        assert(dv.take(dv.len() as int) =~= dv);
    }
    out
}

/// Byte-wise lexicographic "less than or equal" on byte sequences.
pub open spec fn bytes_le(a: Seq<u8>, b: Seq<u8>) -> bool
    decreases a.len(),
{
    if a.len() == 0 {
        true
    } else if b.len() == 0 {
        false
    } else if a[0] < b[0] {
        true
    } else if a[0] > b[0] {
        false
    } else {
        bytes_le(a.skip(1), b.skip(1))
    }
}

/// Names are ordered by the bytes of their text.
pub open spec fn name_le(a: Seq<char>, b: Seq<char>) -> bool {
    bytes_le(encode_utf8(a), encode_utf8(b))
}

/// The byte order relates every pair of sequences one way or the other.
pub proof fn lemma_bytes_le_total(a: Seq<u8>, b: Seq<u8>)
    ensures
        bytes_le(a, b) || bytes_le(b, a),
    decreases a.len(),
{
    if a.len() == 0 || b.len() == 0 {
    } else if a[0] == b[0] {
        lemma_bytes_le_total(a.skip(1), b.skip(1));
    }
}

/// The byte order is transitive.
pub proof fn lemma_bytes_le_trans(a: Seq<u8>, b: Seq<u8>, c: Seq<u8>)
    requires
        bytes_le(a, b),
        bytes_le(b, c),
    ensures
        bytes_le(a, c),
    decreases a.len(),
{
    if a.len() == 0 {
    } else {
        if a[0] == b[0] && b[0] == c[0] {
            lemma_bytes_le_trans(a.skip(1), b.skip(1), c.skip(1));
        }
    }
}

/// Compare two names byte-wise; true when `a` sorts at or before `b`.
fn str_le(a: &String, b: &String) -> (r: bool)
    ensures
        r == name_le(a@, b@),
{
    let ab = a.as_str().as_bytes_vec();
    let bb = b.as_str().as_bytes_vec();
    let ghost av = encode_utf8(a@);
    let ghost bv = encode_utf8(b@);
    let mut i: usize = 0;
    proof {
        assert(av.skip(0) =~= av);
        assert(bv.skip(0) =~= bv);
    }
    while i < ab.len() && i < bb.len()
        invariant
            av == encode_utf8(a@),
            bv == encode_utf8(b@),
            ab@ == av,
            bb@ == bv,
            i <= av.len(),
            i <= bv.len(),
            bytes_le(av, bv) == bytes_le(av.skip(i as int), bv.skip(i as int)),
        decreases av.len() - i,
    {
        let x = ab[i];
        let y = bb[i];
        proof {
            assert(av.skip(i as int)[0] == av[i as int]);
            assert(bv.skip(i as int)[0] == bv[i as int]);
        }
        if x < y {
            proof {
                assert(av.skip(i as int).len() > 0);
                assert(bv.skip(i as int).len() > 0);
                assert(bytes_le(av.skip(i as int), bv.skip(i as int)));
            }
            return true;
        }
        if x > y {
            proof {
                assert(av.skip(i as int).len() > 0);
                assert(bv.skip(i as int).len() > 0);
                assert(!bytes_le(av.skip(i as int), bv.skip(i as int)));
            }
            return false;
        }
        proof {
            assert(av.skip(i as int).skip(1) =~= av.skip(i + 1));
            assert(bv.skip(i as int).skip(1) =~= bv.skip(i + 1));
        }
        i = i + 1;
    }
    proof {
        if i == av.len() {
            assert(av.skip(i as int) =~= Seq::<u8>::empty());
        } else {
            assert(bv.skip(i as int) =~= Seq::<u8>::empty());
            assert(av.skip(i as int).len() > 0);
        }
    }
    i == ab.len()
}

/// Whether the names are in byte-wise ascending order.
pub open spec fn sorted_names(names: Seq<Seq<char>>) -> bool {
    forall|p: int, q: int| 0 <= p < q < names.len() ==> name_le(names[p], names[q])
}

/// Sort the names of a directory listing byte-wise ascending.
///
/// The result is a reordering of the input: same length, same names with the
/// same multiplicities, in ascending byte order. Reading the entries
/// themselves is the caller's side; this is the ordering step alone.
pub fn read_dir_sorted(names: &Vec<String>) -> (out: Vec<String>)
    ensures
        out@.len() == names@.len(),
        out.deep_view().to_multiset() == names.deep_view().to_multiset(),
        sorted_names(out.deep_view()),
{
    broadcast use group_to_multiset_ensures;

    let ghost dv = names.deep_view();
    let mut out: Vec<String> = Vec::new();
    let mut idx: usize = 0;
    proof {
        assert(dv.take(0) =~= Seq::<Seq<char>>::empty());
        assert(out.deep_view() =~= dv.take(0));
    }
    while idx < names.len()
        invariant
            dv == names.deep_view(),
            dv.len() == names@.len(),
            idx <= names@.len(),
            out@.len() == idx,
            out.deep_view().to_multiset() == dv.take(idx as int).to_multiset(),
            sorted_names(out.deep_view()),
        decreases names@.len() - idx,
    {
        let x = names[idx].clone();
        proof {
            assert(x@ == dv[idx as int]);
        }
        let mut j: usize = 0;
        let mut searching = true;
        while searching && j < out.len()
            invariant
                j <= out@.len(),
                x@ == dv[idx as int],
                dv == names.deep_view(),
                sorted_names(out.deep_view()),
                forall|k: int| 0 <= k < j ==> name_le(out.deep_view()[k], x@),
                !searching ==> j < out@.len() && !name_le(out.deep_view()[j as int], x@),
            decreases out@.len() - j, (if searching { 1int } else { 0int }),
        {
            proof {
                assert(out.deep_view()[j as int] == out@[j as int]@);
            }
            if str_le(&out[j], &x) {
                j = j + 1;
            } else {
                searching = false;
            }
        }
        let ghost odv = out.deep_view();
        proof {
            if j < out@.len() {
                assert(!name_le(odv[j as int], x@));
                lemma_bytes_le_total(encode_utf8(odv[j as int]), encode_utf8(x@));
            }
        }
        out.insert(j, x);
        proof {
            let ndv = out.deep_view();
            assert(ndv =~= odv.insert(j as int, dv[idx as int]));
            assert forall|p: int, q: int| 0 <= p < q < ndv.len() implies name_le(
                ndv[p],
                ndv[q],
            ) by {
                let ji = j as int;
                let xv = dv[idx as int];
                if q < ji {
                    assert(ndv[p] == odv[p] && ndv[q] == odv[q]);
                } else if q == ji {
                    assert(ndv[p] == odv[p]);
                    assert(ndv[q] == xv);
                } else if p < ji {
                    assert(ndv[p] == odv[p] && ndv[q] == odv[q - 1]);
                    if q - 1 == ji - 1 && ji <= q - 1 {
                    }
                    if ji <= q - 1 {
                        assert(name_le(odv[p], odv[q - 1]));
                    } else {
                        assert(name_le(odv[p], x@));
                    }
                } else if p == ji {
                    assert(ndv[p] == xv && ndv[q] == odv[q - 1]);
                    assert(name_le(xv, odv[ji]));
                    if q - 1 > ji {
                        assert(name_le(odv[ji], odv[q - 1]));
                        lemma_bytes_le_trans(
                            encode_utf8(xv),
                            encode_utf8(odv[ji]),
                            encode_utf8(odv[q - 1]),
                        );
                    }
                } else {
                    assert(ndv[p] == odv[p - 1] && ndv[q] == odv[q - 1]);
                }
            }
            vstd::seq_lib::to_multiset_insert(odv, j as int, dv[idx as int]);
            assert(ndv.to_multiset() =~= odv.to_multiset().insert(dv[idx as int]));
            assert(dv.take(idx + 1) =~= dv.take(idx as int).push(dv[idx as int]));
            vstd::seq_lib::to_multiset_build(dv.take(idx as int), dv[idx as int]);
            assert(ndv.to_multiset() =~= dv.take(idx + 1).to_multiset());
        }
        idx = idx + 1;
    }
    proof {
        assert(dv.take(dv.len() as int) =~= dv);
        vstd::seq_lib::to_multiset_len(out.deep_view());
        vstd::seq_lib::to_multiset_len(dv);
    }
    out
}

#[verifier::external_type_specification]
#[verifier::external_body]
pub struct ExPathBuf(PathBuf);

/// Relies on `Path::to_str`, which returns the path's text exactly when it
/// is valid UTF-8, and on `str::to_string`, which copies that text.
#[verifier::external_body]
fn path_text(p: &PathBuf) -> (r: Option<String>)
{
    p.to_str().map(|t| t.to_string())
}

/// The final chunk of a path's text: the characters after the last slash
/// (all of the text when it has no slash).
pub open spec fn tail_chunk(s: Seq<char>) -> Seq<char>
    decreases s.len(),
{
    if s.len() == 0 {
        Seq::empty()
    } else if s.last() == '/' {
        Seq::empty()
    } else {
        tail_chunk(s.drop_last()).push(s.last())
    }
}

/// The name a path's text displays as: its final path component, skipping
/// trailing slashes and `.` chunks; empty when nothing is left or when the
/// path ends in a `..` chunk.
pub open spec fn file_name_spec(s: Seq<char>) -> Seq<char>
    decreases s.len(),
{
    if s.len() == 0 {
        Seq::empty()
    } else if s.last() == '/' {
        file_name_spec(s.drop_last())
    } else {
        let chunk = tail_chunk(s);
        if chunk.len() == 1 && chunk[0] == '.' {
            file_name_spec(s.drop_last())
        } else if chunk.len() == 2 && chunk[0] == '.' && chunk[1] == '.' {
            Seq::empty()
        } else {
            chunk
        }
    }
}

/// In a text whose positions from `b` on hold no slash, and whose position
/// `b - 1` (when it exists) holds one, the tail chunk is the text from `b`.
proof fn lemma_tail_chunk_at(t: Seq<char>, b: int)
    requires
        0 <= b <= t.len(),
        forall|k: int| b <= k < t.len() ==> t[k] != '/',
        b > 0 ==> t[b - 1] == '/',
    ensures
        tail_chunk(t) =~= t.subrange(b, t.len() as int),
    decreases t.len() - b,
{
    if b == t.len() {
        if t.len() > 0 {
            assert(t.last() == '/');
        }
    } else {
        assert(t.last() != '/');
        lemma_tail_chunk_at(t.drop_last(), b);
        assert(t.drop_last().subrange(b, t.len() - 1) =~= t.subrange(b, t.len() - 1));
        assert(t.subrange(b, t.len() - 1).push(t.last()) =~= t.subrange(b, t.len() as int));
    }
}

/// The display name of a path text: its final component, as
/// [`file_name_spec`] describes it.
pub fn file_name_of(s: &str) -> (r: String)
    ensures
        r@ == file_name_spec(s@),
{
    let mut e: usize = s.unicode_len();
    proof {
        assert(s@.take(e as int) =~= s@);
    }
    while e > 0
        invariant
            e <= s@.len(),
            file_name_spec(s@) == file_name_spec(s@.take(e as int)),
        decreases e,
    {
        let ghost t = s@.take(e as int);
        proof {
            assert(t.last() == s@[e - 1]);
            assert(t.drop_last() =~= s@.take(e - 1));
        }
        let c = s.get_char(e - 1);
        if c == '/' {
            e = e - 1;
        } else {
            let mut b: usize = e;
            let mut scanning = true;
            while scanning && b > 0
                invariant
                    b <= e,
                    e <= s@.len(),
                    forall|k: int| b <= k < e ==> s@[k] != '/',
                    !scanning ==> b > 0 && s@[b - 1] == '/',
                decreases b, (if scanning { 1int } else { 0int }),
            {
                let c2 = s.get_char(b - 1);
                if c2 != '/' {
                    b = b - 1;
                } else {
                    scanning = false;
                }
            }
            proof {
                assert(forall|k: int| b <= k < t.len() ==> t[k] == s@[k]);
                lemma_tail_chunk_at(t, b as int);
                assert(tail_chunk(t).len() == e - b);
            }
            if e - b == 1 && s.get_char(b) == '.' {
                proof {
                    assert(tail_chunk(t)[0] == t[b as int]);
                }
                e = e - 1;
            } else if e - b == 2 && s.get_char(b) == '.' && s.get_char(b + 1) == '.' {
                proof {
                    assert(tail_chunk(t)[0] == t[b as int]);
                    assert(tail_chunk(t)[1] == t[b + 1]);
                }
                return String::new();
            } else {
                let chunk = s.substring_char(b, e);
                proof {
                    assert(chunk@ =~= t.subrange(b as int, t.len() as int));
                    if tail_chunk(t).len() == 1 {
                        assert(tail_chunk(t)[0] == t[b as int]);
                    }
                    if tail_chunk(t).len() == 2 {
                        assert(tail_chunk(t)[0] == t[b as int]);
                        assert(tail_chunk(t)[1] == t[b + 1]);
                    }
                }
                return String::from_str(chunk);
            }
        }
    }
    proof {
        assert(s@.take(0) =~= Seq::<char>::empty());
    }
    String::new()
}

/// The display name of a path: its file name's text, or the empty string
/// for a path without one or whose text is not valid UTF-8.
pub fn file_name_by_pathbuf(dir_pathbuf: &PathBuf) -> (r: String) {
    match path_text(dir_pathbuf) {
        Some(text) => file_name_of(text.as_str()),
        None => String::new(),
    }
}

} // verus!
