//! Session state for the recommendation scraper: the cookie jar kept
//! across requests, the Set-Cookie lines it learns from, and how a
//! redirect's location is merged over the current address.  The HTTP
//! requests themselves are the caller's work.

use vstd::prelude::*;

verus! {

use vstd::pervasive::VecAdditionalExecFns;

/// Index of the first occurrence of `b` at or after `from`, or the
/// sequence length when there is none.
pub open spec fn spec_find_byte(s: Seq<u8>, b: u8, from: nat) -> nat
    decreases s.len() - from,
{
    if from >= s.len() {
        s.len()
    } else if s[from as int] == b {
        from
    } else {
        spec_find_byte(s, b, from + 1)
    }
}

fn find_byte(v: &Vec<u8>, b: u8, from: usize) -> (i: usize)
    requires
        from <= v@.len(),
    ensures
        i == spec_find_byte(v@, b, from as nat),
        from <= i <= v@.len(),
{
    let mut i = from;
    while i < v.len()
        invariant
            from <= i <= v@.len(),
            spec_find_byte(v@, b, from as nat) == spec_find_byte(v@, b, i as nat),
        decreases v@.len() - i,
    {
        if v[i] == b {
            return i;
        }
        i += 1;
    }
    i
}

/// The name/value pair of one Set-Cookie line: everything up to the first
/// ';' is the pair, split at its first '='; a line with no '=' there
/// carries no pair.
pub open spec fn spec_cookie_pair(s: Seq<u8>) -> Option<(Seq<u8>, Seq<u8>)> {
    let seg = s.subrange(0, spec_find_byte(s, 0x3b, 0) as int);
    let eq = spec_find_byte(seg, 0x3d, 0) as int;
    if eq == seg.len() {
        None
    } else {
        Some((seg.subrange(0, eq), seg.subrange(eq + 1, seg.len() as int)))
    }
}

/// Splits one Set-Cookie header line into its cookie's name and value.
pub fn parse_set_cookie(v: &Vec<u8>) -> (r: Option<(Vec<u8>, Vec<u8>)>)
    ensures
        match r {
            Some((name, value)) => spec_cookie_pair(v@) == Some((name@, value@)),
            None => spec_cookie_pair(v@) is None,
        },
{
    let cut = find_byte(v, 0x3b, 0);
    let mut seg: Vec<u8> = Vec::new();
    let mut i: usize = 0;
    while i < cut
        invariant
            i <= cut <= v@.len(),
            seg@ == v@.subrange(0, i as int),
        decreases cut - i,
    {
        seg.push(v[i]);
        i += 1;
    }
    proof {
        assert(seg@ =~= v@.subrange(0, spec_find_byte(v@, 0x3b, 0) as int));
    }
    let eq = find_byte(&seg, 0x3d, 0);
    if eq == seg.len() {
        return None;
    }
    let mut name: Vec<u8> = Vec::new();
    let mut j: usize = 0;
    while j < eq
        invariant
            j <= eq < seg@.len(),
            name@ == seg@.subrange(0, j as int),
        decreases eq - j,
    {
        name.push(seg[j]);
        j += 1;
    }
    let mut value: Vec<u8> = Vec::new();
    let mut k: usize = eq + 1;
    while k < seg.len()
        invariant
            eq + 1 <= k <= seg@.len(),
            value@ == seg@.subrange(eq + 1, k as int),
        decreases seg@.len() - k,
    {
        value.push(seg[k]);
        k += 1;
    }
    proof {
        assert(name@ =~= seg@.subrange(0, eq as int));
        assert(value@ =~= seg@.subrange(eq as int + 1, seg@.len() as int));
    }
    Some((name, value))
}

/// The Cookie header line for the entries from `from` on: `name=value`
/// pairs joined by `"; "`.
pub open spec fn spec_header_range(ns: Seq<Seq<u8>>, vs: Seq<Seq<u8>>, from: int) -> Seq<u8>
    decreases ns.len() - from,
{
    if from < 0 || from >= ns.len() {
        Seq::empty()
    } else {
        ns[from] + seq![0x3du8] + vs[from] + (if from + 1 < ns.len() {
            seq![0x3bu8, 0x20u8]
        } else {
            Seq::empty()
        }) + spec_header_range(ns, vs, from + 1)
    }
}

/// The cookies sent with every scraper request.  No name is held twice: a
/// later Set-Cookie for a known name replaces its value.
pub struct CookieJar {
    names: Vec<Vec<u8>>,
    values: Vec<Vec<u8>>,
}

impl CookieJar {
    /// The cookie names, in insertion order.
    pub closed spec fn spec_names(self) -> Seq<Seq<u8>> {
        self.names@.map_values(|n: Vec<u8>| n@)
    }

    /// The cookie values, in the same order as the names.
    pub closed spec fn spec_values(self) -> Seq<Seq<u8>> {
        self.values@.map_values(|n: Vec<u8>| n@)
    }

    /// One value per name, and no name twice.
    pub open spec fn wf(self) -> bool {
        &&& self.spec_names().len() == self.spec_values().len()
        &&& forall|i: int, j: int|
            0 <= i < j < self.spec_names().len() ==> self.spec_names()[i] != self.spec_names()[j]
    }

    /// An empty jar.
    pub fn new() -> (r: CookieJar)
        ensures
            r.wf(),
            r.spec_names().len() == 0,
    {
        let r = CookieJar { names: Vec::new(), values: Vec::new() };
        proof {
            assert(r.spec_names() =~= Seq::<Seq<u8>>::empty());
            assert(r.spec_values() =~= Seq::<Seq<u8>>::empty());
        }
        r
    }

    /// Sets a cookie: replaces the value of a known name in place, or
    /// appends a new entry.
    pub fn insert(&mut self, name: Vec<u8>, value: Vec<u8>)
        requires
            old(self).wf(),
        ensures
            final(self).wf(),
            (exists|i: int|
                0 <= i < old(self).spec_names().len() && old(self).spec_names()[i] == name@) ==> {
                &&& final(self).spec_names() == old(self).spec_names()
                &&& forall|i: int|
                    0 <= i < old(self).spec_names().len() ==> final(self).spec_values()[i] == (
                    if old(self).spec_names()[i] == name@ {
                        value@
                    } else {
                        old(self).spec_values()[i]
                    })
            },
            !(exists|i: int|
                0 <= i < old(self).spec_names().len() && old(self).spec_names()[i] == name@) ==> {
                &&& final(self).spec_names() == old(self).spec_names().push(name@)
                &&& final(self).spec_values() == old(self).spec_values().push(value@)
            },
    {
        let n = self.names.len();
        let mut i: usize = 0;
        while i < n
            invariant
                i <= n,
                n == self.names@.len(),
                self.wf(),
                self.names@ == old(self).names@,
                self.values@ == old(self).values@,
                forall|k: int| 0 <= k < i ==> self.spec_names()[k] != name@,
            decreases n - i,
        {
            let hit = crate::output::bytes_eq(&self.names[i], &name);
            if hit {
                proof {
                    assert(old(self).spec_names()[i as int] == name@);
                }
                self.values.set(i, value);
                proof {
                    assert(self.spec_names() =~= old(self).spec_names());
                    assert(self.spec_values() =~= old(self).spec_values().update(
                        i as int,
                        value@,
                    ));
                }
                return ;
            }
            i += 1;
        }
        proof {
            assert(forall|k: int|
                0 <= k < n ==> #[trigger] old(self).spec_names()[k] != name@);
        }
        self.names.push(name);
        self.values.push(value);
        proof {
            assert(self.spec_names() =~= old(self).spec_names().push(
                self.names@[n as int]@,
            ));
            assert(self.spec_values() =~= old(self).spec_values().push(
                self.values@[n as int]@,
            ));
        }
    }

    /// The Cookie header line: every `name=value` pair, joined by `"; "`.
    pub fn header(&self) -> (r: Vec<u8>)
        requires
            self.wf(),
        ensures
            r@ == spec_header_range(self.spec_names(), self.spec_values(), 0),
    {
        self.header_from(0)
    }

    fn header_from(&self, from: usize) -> (r: Vec<u8>)
        requires
            self.wf(),
            from <= self.names@.len(),
        ensures
            r@ == spec_header_range(self.spec_names(), self.spec_values(), from as int),
        decreases self.names@.len() - from,
    {
        if from >= self.names.len() {
            Vec::new()
        } else {
            let mut out: Vec<u8> = Vec::new();
            let mut i: usize = 0;
            while i < self.names[from].len()
                invariant
                    from < self.names@.len(),
                    i <= self.names@[from as int]@.len(),
                    out@ == self.names@[from as int]@.subrange(0, i as int),
                decreases self.names@[from as int]@.len() - i,
            {
                out.push(self.names[from][i]);
                i += 1;
            }
            out.push(0x3d);
            let mut j: usize = 0;
            let ghost mid = out@;
            while j < self.values[from].len()
                invariant
                    from < self.values@.len(),
                    j <= self.values@[from as int]@.len(),
                    out@ == mid + self.values@[from as int]@.subrange(0, j as int),
                decreases self.values@[from as int]@.len() - j,
            {
                out.push(self.values[from][j]);
                j += 1;
            }
            if from + 1 < self.names.len() {
                out.push(0x3b);
                out.push(0x20);
            }
            let mut rest = self.header_from(from + 1);
            out.append(&mut rest);
            proof {
                assert(out@ =~= spec_header_range(
                    self.spec_names(),
                    self.spec_values(),
                    from as int,
                ));
            }
            out
        }
    }
}

/// The pieces of the address a request is sent to.
#[derive(Debug)]
pub struct UriParts {
    pub scheme: String,
    pub authority: String,
    pub path_and_query: String,
}

/// Merges a redirect's location over the current address, as the login
/// loop follows redirects: each piece the location carries replaces the
/// current one; a missing scheme or authority is kept from the current
/// address, and a missing path becomes empty.
pub fn merge_redirect(
    base: &UriParts,
    scheme: Option<String>,
    authority: Option<String>,
    path_and_query: Option<String>,
) -> (r: UriParts)
    ensures
        r.scheme@ == (match scheme {
            Some(s) => s@,
            None => base.scheme@,
        }),
        r.authority@ == (match authority {
            Some(a) => a@,
            None => base.authority@,
        }),
        r.path_and_query@ == (match path_and_query {
            Some(p) => p@,
            None => Seq::<char>::empty(),
        }),
{
    let scheme = match scheme {
        Some(s) => s,
        None => base.scheme.clone(),
    };
    let authority = match authority {
        Some(a) => a,
        None => base.authority.clone(),
    };
    let path_and_query = match path_and_query {
        Some(p) => p,
        None => String::new(),
    };
    UriParts { scheme, authority, path_and_query }
}

} // verus!
