//! A plain-value model of the request/response cookie jar.
//!
//! The session subsystem only ever reads, replaces or deletes one named
//! cookie, so the jar is a name-keyed collection of cookies; its view is the
//! map from cookie names to cookies.
use crate::text::str_chars;
use vstd::prelude::*;

verus! {

/// One cookie, with the attributes the session subsystem sets.
#[derive(Clone, Debug)]
pub struct Cookie {
    pub name: String,
    pub value: String,
    /// `Max-Age` in seconds, where set.
    pub max_age: Option<i64>,
    /// The `Secure` attribute: transmission over HTTPS only.
    pub secure: bool,
}

/// The mathematical image of one cookie.
pub ghost struct CookieView {
    pub name: Seq<char>,
    pub value: Seq<char>,
    pub max_age: Option<int>,
    pub secure: bool,
}

impl View for Cookie {
    type V = CookieView;

    open spec fn view(&self) -> CookieView {
        CookieView {
            name: self.name@,
            value: self.value@,
            max_age: match self.max_age {
                Some(a) => Some(a as int),
                None => None,
            },
            secure: self.secure,
        }
    }
}

/// The map a cookie sequence denotes; a later cookie of the same name wins.
pub open spec fn jar_map(s: Seq<Cookie>) -> Map<Seq<char>, CookieView>
    decreases s.len(),
{
    if s.len() == 0 {
        Map::empty()
    } else {
        jar_map(s.drop_last()).insert(s.last()@.name, s.last()@)
    }
}

/// No two cookies share a name.
pub open spec fn distinct_names(s: Seq<Cookie>) -> bool {
    forall|i: int, j: int| 0 <= i < j < s.len() ==> s[i]@.name != s[j]@.name
}

/// The jar of cookies attached to a request or a response.
#[derive(Clone, Debug)]
pub struct CookieJar {
    cookies: Vec<Cookie>,
}

impl View for CookieJar {
    type V = Map<Seq<char>, CookieView>;

    closed spec fn view(&self) -> Map<Seq<char>, CookieView> {
        jar_map(self.cookies@)
    }
}

/// A name is in the map exactly when some cookie carries it, and under
/// distinct names it maps to that cookie.
proof fn lemma_jar_map_lookup(s: Seq<Cookie>, n: Seq<char>)
    ensures
        jar_map(s).contains_key(n) <==> exists|i: int| 0 <= i < s.len() && s[i]@.name == n,
    decreases s.len(),
{
    if s.len() > 0 {
        lemma_jar_map_lookup(s.drop_last(), n);
        if s.last()@.name == n {
            assert(s[s.len() - 1]@.name == n);
        } else {
            assert(forall|i: int| 0 <= i < s.len() - 1 ==> s.drop_last()[i] == s[i]);
        }
    }
}

/// Under distinct names, the cookie at any index is what the map holds for
/// its name.
proof fn lemma_jar_map_at(s: Seq<Cookie>, n: Seq<char>, i: int)
    requires
        distinct_names(s),
        0 <= i < s.len(),
        s[i]@.name == n,
    ensures
        jar_map(s).contains_key(n),
        jar_map(s)[n] == s[i]@,
    decreases s.len(),
{
    if i == s.len() - 1 {
    } else {
        assert(s.last()@.name != n);
        assert(s.drop_last()[i] == s[i]);
        assert(distinct_names(s.drop_last()));
        lemma_jar_map_at(s.drop_last(), n, i);
    }
}

impl CookieJar {
    /// All cookie names are distinct; every operation preserves this.
    pub closed spec fn wf(&self) -> bool {
        distinct_names(self.cookies@)
    }

    /// The empty jar.
    pub fn new() -> (r: CookieJar)
        ensures
            r.wf(),
            r@ == Map::<Seq<char>, CookieView>::empty(),
    {
        CookieJar { cookies: Vec::new() }
    }

    /// The cookie of the given name, if the jar holds one.
    pub fn get(&self, name: &str) -> (r: Option<&Cookie>)
        requires
            self.wf(),
        ensures
            match r {
                Some(c) => self@.contains_key(name@) && self@[name@] == c@,
                None => !self@.contains_key(name@),
            },
    {
        let target = str_chars(name);
        let mut i: usize = 0;
        while i < self.cookies.len()
            invariant
                i <= self.cookies@.len(),
                self.wf(),
                target@ == name@,
                forall|j: int| 0 <= j < i ==> self.cookies@[j]@.name != name@,
            decreases self.cookies@.len() - i,
        {
            let cand = str_chars(self.cookies[i].name.as_str());
            if chars_eq(&cand, &target) {
                proof {
                    lemma_jar_map_at(self.cookies@, name@, i as int);
                }
                return Some(&self.cookies[i]);
            }
            i += 1;
        }
        proof {
            lemma_jar_map_lookup(self.cookies@, name@);
        }
        None
    }

    /// The jar with `cookie` added, replacing any cookie of the same name.
    pub fn add(self, cookie: Cookie) -> (r: CookieJar)
        requires
            self.wf(),
        ensures
            r.wf(),
            r@ == self@.insert(cookie@.name, cookie@),
    {
        let mut out = self.remove_name(&cookie.name);
        proof {
            let s = out.cookies@;
            lemma_jar_map_lookup(s.push(cookie), cookie@.name);
            assert(s.push(cookie).drop_last() =~= s);
            assert(jar_map(s.push(cookie)) == jar_map(s).insert(cookie@.name, cookie@));
            assert(forall|i: int|
                0 <= i < s.len() ==> #[trigger] s.push(cookie)[i] == s[i]);
            assert(s.push(cookie)[s.len() as int] == cookie);
        }
        out.cookies.push(cookie);
        proof {
            assert(out@ =~= self@.remove(cookie@.name).insert(cookie@.name, cookie@));
            assert(self@.remove(cookie@.name).insert(cookie@.name, cookie@) =~= self@.insert(
                cookie@.name,
                cookie@,
            ));
        }
        out
    }

    /// The jar without any cookie of the given name.
    pub fn remove(self, name: &str) -> (r: CookieJar)
        requires
            self.wf(),
        ensures
            r.wf(),
            r@ == self@.remove(name@),
    {
        let r = self.remove_name(&String::from_str(name));
        proof {
            assert(r@ =~= self@.remove(name@));
        }
        r
    }

    fn remove_name(self, name: &String) -> (r: CookieJar)
        requires
            self.wf(),
        ensures
            r.wf(),
            r@ == self@.remove(name@),
            forall|i: int| 0 <= i < r.cookies@.len() ==> r.cookies@[i]@.name != name@,
    {
        let ghost orig = self.cookies@;
        let target = str_chars(name.as_str());
        let mut rest = self.cookies;
        let mut out: Vec<Cookie> = Vec::new();
        let ghost mut i: int = 0;
        while rest.len() > 0
            invariant
                0 <= i <= orig.len(),
                rest@ == orig.skip(i),
                target@ == name@,
                distinct_names(orig),
                distinct_names(out@),
                jar_map(out@) == jar_map(orig.take(i)).remove(name@),
                forall|j: int| 0 <= j < out@.len() ==> out@[j]@.name != name@,
                forall|j: int|
                    #![trigger out@[j]]
                    0 <= j < out@.len() ==> exists|k: int|
                        0 <= k < i && out@[j]@.name == #[trigger] orig[k]@.name,
            decreases rest@.len(),
        {
            let c = rest.remove(0);
            proof {
                assert(c == orig[i]);
                assert(rest@ =~= orig.skip(i + 1));
                assert(orig.take(i + 1).drop_last() =~= orig.take(i));
                assert(orig.take(i + 1).last() == orig[i]);
            }
            let cand = str_chars(c.name.as_str());
            if !chars_eq(&cand, &target) {
                proof {
                    let s = out@;
                    assert(s.push(c).drop_last() =~= s);
                    assert(forall|j: int| 0 <= j < s.len() ==> #[trigger] s.push(c)[j] == s[j]);
                    assert(s.push(c)[s.len() as int] == c);
                }
                out.push(c);
                proof {
                    assert(jar_map(out@) =~= jar_map(orig.take(i + 1)).remove(name@));
                }
            } else {
                proof {
                    assert(jar_map(orig.take(i + 1)) == jar_map(orig.take(i)).insert(
                        orig[i]@.name,
                        orig[i]@,
                    ));
                    assert(jar_map(out@) =~= jar_map(orig.take(i + 1)).remove(name@));
                }
            }
            proof {
                i = i + 1;
            }
        }
        proof {
            assert(i == orig.len());
            assert(orig.take(orig.len() as int) =~= orig);
        }
        CookieJar { cookies: out }
    }
}

/// Character-for-character equality.
fn chars_eq(a: &Vec<char>, b: &Vec<char>) -> (r: bool)
    ensures
        r == (a@ == b@),
{
    if a.len() != b.len() {
        return false;
    }
    let mut i: usize = 0;
    while i < a.len()
        invariant
            i <= a@.len(),
            a@.len() == b@.len(),
            forall|j: int| 0 <= j < i ==> a@[j] == b@[j],
        decreases a@.len() - i,
    {
        if a[i] != b[i] {
            return false;
        }
        i += 1;
    }
    proof {
        assert(a@ =~= b@);
    }
    true
}

} // verus!
