//! What the connection endpoint decides before it registers a client: the
//! display name, read from the query string of the connection request.

use vstd::prelude::*;
use vstd::string::StrSliceExecFns;

verus! {

/// The query field that carries the display name, with its `=`.
pub open spec fn name_key() -> Seq<char> {
    "username="@
}

/// The display name of a client that supplied none.
pub open spec fn default_name() -> Seq<char> {
    "anonymous"@
}

/// Whether a `&`-separated field that begins with the key starts at `i`.
pub open spec fn field_at(q: Seq<char>, i: int) -> bool {
    &&& 0 <= i
    &&& i + name_key().len() <= q.len()
    &&& (i == 0 || q[i - 1] == '&')
    &&& q.subrange(i, i + name_key().len()) == name_key()
}

/// Whether `i` is the first place where such a field starts.
pub open spec fn first_field_at(q: Seq<char>, i: int) -> bool {
    field_at(q, i) && forall|j: int| 0 <= j < i ==> !field_at(q, j)
}

/// Whether the value that starts at `from` ends at `e`: at the next `&` or
/// `=`, or at the end of the query.
pub open spec fn value_ends(q: Seq<char>, from: int, e: int) -> bool {
    &&& from <= e <= q.len()
    &&& (e == q.len() || q[e] == '&' || q[e] == '=')
    &&& forall|k: int| from <= k < e ==> q[k] != '&' && q[k] != '='
}

/// The display name that a query string gives: the value of its first
/// `username=` field, up to the next `&` or `=`; the default name where no
/// field begins with the key.
pub open spec fn query_username(q: Seq<char>) -> Seq<char> {
    if exists|i: int| field_at(q, i) {
        let i = choose|i: int| first_field_at(q, i);
        let from = i + name_key().len();
        let e = choose|e: int| value_ends(q, from, e);
        q.subrange(from, e)
    } else {
        default_name()
    }
}

/// Whether the key stands at `i` in the query.
fn key_stands_at(query: &str, n: usize, i: usize) -> (r: bool)
    requires
        n == query@.len(),
        i <= n,
    ensures
        r == (i + name_key().len() <= n && query@.subrange(i as int, i + name_key().len())
            == name_key()),
{
    let key = "username=";
    let m = key.unicode_len();
    if m > n - i {
        return false;
    }
    let mut k: usize = 0;
    while k < m
        invariant
            m == key@.len(),
            key@ == name_key(),
            n == query@.len(),
            i + m <= n,
            k <= m,
            forall|j: int| 0 <= j < k ==> query@[i + j] == key@[j],
        decreases m - k,
    {
        if query.get_char(i + k) != key.get_char(k) {
            proof {
                assert(query@.subrange(i as int, i + m)[k as int] == query@[i + k]);
            }
            return false;
        }
        k += 1;
    }
    proof {
        assert(query@.subrange(i as int, i + m) =~= key@);
    }
    true
}

/// Reads the display name from a query string.
pub fn username_from_query(query: &str) -> (name: String)
    ensures
        name@ == query_username(query@),
{
    let n = query.unicode_len();
    let m = "username=".unicode_len();
    let mut i: usize = 0;
    while i < n
        invariant
            n == query@.len(),
            m == name_key().len(),
            i <= n,
            forall|j: int| 0 <= j < i ==> !field_at(query@, j),
        decreases n - i,
    {
        if (i == 0 || query.get_char(i - 1) == '&') && key_stands_at(query, n, i) {
            let from = i + m;
            let mut e = from;
            while e < n && query.get_char(e) != '&' && query.get_char(e) != '='
                invariant
                    n == query@.len(),
                    from <= e <= n,
                    forall|k: int| from <= k < e ==> query@[k] != '&' && query@[k] != '=',
                decreases n - e,
            {
                e += 1;
            }
            proof {
                let q = query@;
                assert(field_at(q, i as int));
                assert(first_field_at(q, i as int));
                let ci = choose|c: int| first_field_at(q, c);
                assert(ci == i) by {
                    if ci < i {
                        assert(!field_at(q, ci));
                    } else if i < ci {
                        assert(!field_at(q, i as int));
                    }
                }
                assert(value_ends(q, from as int, e as int));
                let ce = choose|c: int| value_ends(q, from as int, c);
                assert(ce == e) by {
                    if ce < e {
                        assert(q[ce] != '&' && q[ce] != '=');
                    } else if e < ce {
                        assert(q[e as int] != '&' && q[e as int] != '=');
                    }
                }
            }
            return query.substring_char(from, e).to_owned();
        }
        i += 1;
    }
    proof {
        reveal_strlit("username=");
        assert forall|j: int| !field_at(query@, j) by {
            if 0 <= j < n {
            } else {
                assert(name_key().len() == 9);
            }
        }
    }
    "anonymous".to_owned()
}

} // verus!
