//! The providers this application knows, and which of them to ask for a record.
use vstd::prelude::*;
use crate::object::{FieldValue, FiscalError, Object};
use crate::ofd::cache::{default_cache_id, default_cache_id_of, icom24_cache_id, icom24_cache_id_of, taxcom_cache_id, taxcom_cache_id_of, text_of};
use crate::ofd::custom::ProviderId;
use crate::ofd::providers::{kind_id, Astral, Beeline, Eofd, Icom24, IrkktMobile, OfdRu, OneOfd, Private1, ProviderKind, Taxcom};
use crate::ofd::Error;
use crate::text::{chars_eq, to_chars};

verus! {

/// A provider, with what it needs to be asked.
pub enum OfdProvider {
    Private1(Private1),
    IrkktMobile(IrkktMobile),
    Astral(Astral),
    Icom24(Icom24),
    OfdRu(OfdRu),
    Taxcom(Taxcom),
    OneOfd(OneOfd),
    Eofd(Eofd),
    Beeline(Beeline),
}

pub open spec fn provider_kind(p: OfdProvider) -> ProviderKind {
    match p {
        OfdProvider::Private1(_) => ProviderKind::Private1,
        OfdProvider::IrkktMobile(_) => ProviderKind::IrkktMobile,
        OfdProvider::Astral(_) => ProviderKind::Astral,
        OfdProvider::Icom24(_) => ProviderKind::Icom24,
        OfdProvider::OfdRu(_) => ProviderKind::OfdRu,
        OfdProvider::Taxcom(_) => ProviderKind::Taxcom,
        OfdProvider::OneOfd(_) => ProviderKind::OneOfd,
        OfdProvider::Eofd(_) => ProviderKind::Eofd,
        OfdProvider::Beeline(_) => ProviderKind::Beeline,
    }
}

/// The name a provider of kind `k` keeps the document of `rec` under.
pub open spec fn cache_id_for(k: ProviderKind, rec: Seq<(u16, FieldValue)>) -> Result<Seq<char>, Error> {
    match k {
        ProviderKind::Icom24 => icom24_cache_id(rec),
        ProviderKind::Taxcom => taxcom_cache_id(rec),
        _ => default_cache_id(rec),
    }
}

impl OfdProvider {
    /// Which source this is.
    pub fn kind(&self) -> (r: ProviderKind)
        ensures
            r == provider_kind(*self),
    {
        match self {
            OfdProvider::Private1(_) => ProviderKind::Private1,
            OfdProvider::IrkktMobile(_) => ProviderKind::IrkktMobile,
            OfdProvider::Astral(_) => ProviderKind::Astral,
            OfdProvider::Icom24(_) => ProviderKind::Icom24,
            OfdProvider::OfdRu(_) => ProviderKind::OfdRu,
            OfdProvider::Taxcom(_) => ProviderKind::Taxcom,
            OfdProvider::OneOfd(_) => ProviderKind::OneOfd,
            OfdProvider::Eofd(_) => ProviderKind::Eofd,
            OfdProvider::Beeline(_) => ProviderKind::Beeline,
        }
    }

    /// The name this provider keeps the document of `rec` under.
    pub fn cache_id(&self, rec: &Object) -> (r: Result<String, Error>)
        ensures
            text_of(r) == cache_id_for(provider_kind(*self), rec@),
    {
        match self {
            OfdProvider::Icom24(_) => icom24_cache_id_of(rec),
            OfdProvider::Taxcom(_) => taxcom_cache_id_of(rec),
            _ => default_cache_id_of(rec),
        }
    }

    /// Whether this provider should be asked for `rec` (every provider is).
    pub fn condition(&self, rec: &Object) -> (r: bool)
        ensures
            r,
    {
        true
    }
}

/// The kind whose identifier is `s`, trying the kinds in a fixed order.
pub open spec fn kind_with_id(s: Seq<char>) -> Option<ProviderKind> {
    if s == kind_id(ProviderKind::Private1) {
        Some(ProviderKind::Private1)
    } else if s == kind_id(ProviderKind::IrkktMobile) {
        Some(ProviderKind::IrkktMobile)
    } else if s == kind_id(ProviderKind::Astral) {
        Some(ProviderKind::Astral)
    } else if s == kind_id(ProviderKind::Icom24) {
        Some(ProviderKind::Icom24)
    } else if s == kind_id(ProviderKind::OfdRu) {
        Some(ProviderKind::OfdRu)
    } else if s == kind_id(ProviderKind::Taxcom) {
        Some(ProviderKind::Taxcom)
    } else if s == kind_id(ProviderKind::OneOfd) {
        Some(ProviderKind::OneOfd)
    } else if s == kind_id(ProviderKind::Eofd) {
        Some(ProviderKind::Eofd)
    } else if s == kind_id(ProviderKind::Beeline) {
        Some(ProviderKind::Beeline)
    } else {
        None
    }
}

fn id_is(s: &[char], k: ProviderKind) -> (r: bool)
    ensures
        r == (s@ == kind_id(k)),
{
    let id = to_chars(k.id());
    chars_eq(s, id.as_slice())
}

impl ProviderKind {
    /// The kind whose identifier is `s`.
    pub fn from_id(s: &str) -> (r: Option<ProviderKind>)
        ensures
            r == kind_with_id(s@),
    {
        let c = to_chars(s);
        let v = c.as_slice();
        if id_is(v, ProviderKind::Private1) {
            Some(ProviderKind::Private1)
        } else if id_is(v, ProviderKind::IrkktMobile) {
            Some(ProviderKind::IrkktMobile)
        } else if id_is(v, ProviderKind::Astral) {
            Some(ProviderKind::Astral)
        } else if id_is(v, ProviderKind::Icom24) {
            Some(ProviderKind::Icom24)
        } else if id_is(v, ProviderKind::OfdRu) {
            Some(ProviderKind::OfdRu)
        } else if id_is(v, ProviderKind::Taxcom) {
            Some(ProviderKind::Taxcom)
        } else if id_is(v, ProviderKind::OneOfd) {
            Some(ProviderKind::OneOfd)
        } else if id_is(v, ProviderKind::Eofd) {
            Some(ProviderKind::Eofd)
        } else if id_is(v, ProviderKind::Beeline) {
            Some(ProviderKind::Beeline)
        } else {
            None
        }
    }
}

/// The settings that decide which optional providers take part.
pub struct RegistryConfig {
    pub private1_endpoint: Option<String>,
    pub irkkt_mobile_client_secret: Option<String>,
    pub irkkt_mobile_device_id: Option<String>,
    pub irkkt_mobile_api_base: Option<String>,
}

/// The providers, in the order they were added.
pub struct OfdRegistry {
    pub all: Vec<OfdProvider>,
}

/// The kinds of the providers, in order.
pub open spec fn kinds_of(ps: Seq<OfdProvider>) -> Seq<ProviderKind> {
    Seq::new(ps.len(), |i: int| provider_kind(ps[i]))
}

/// The positions of the providers of kind `k`, in order.
pub open spec fn positions_of(ks: Seq<ProviderKind>, k: Option<ProviderKind>) -> Seq<int>
    decreases ks.len(),
{
    if ks.len() == 0 {
        Seq::empty()
    } else if k == Some(ks.last()) {
        positions_of(ks.drop_last(), k).push(ks.len() - 1)
    } else {
        positions_of(ks.drop_last(), k)
    }
}

/// All positions, in order.
pub open spec fn all_positions(n: nat) -> Seq<int> {
    Seq::new(n, |i: int| i)
}

/// The providers to fall back on: private ones first, then the tax service.
pub open spec fn default_order(ks: Seq<ProviderKind>) -> Seq<int> {
    positions_of(ks, Some(ProviderKind::Private1)) + positions_of(ks, Some(ProviderKind::IrkktMobile))
}

/// The providers to ask for a record that names the provider `id`: those with that
/// identifier, then the fallbacks, then every provider.
pub open spec fn by_id_order(ks: Seq<ProviderKind>, id: Seq<char>) -> Seq<int> {
    positions_of(ks, kind_with_id(id)) + default_order(ks) + all_positions(ks.len())
}

pub proof fn lemma_positions_of_bounds(ks: Seq<ProviderKind>, k: Option<ProviderKind>)
    ensures
        forall|i: int| 0 <= i < positions_of(ks, k).len() ==> 0 <= #[trigger] positions_of(ks, k)[i] < ks.len()
            && Some(ks[positions_of(ks, k)[i]]) == k,
        positions_of(ks, k).len() <= ks.len(),
    decreases ks.len(),
{
    if ks.len() > 0 {
        lemma_positions_of_bounds(ks.drop_last(), k);
    }
}

impl OfdRegistry {
    pub open spec fn kinds(&self) -> Seq<ProviderKind> {
        kinds_of(self.all@)
    }

    /// A registry with the providers that `c` enables, then the operators every
    /// installation has: a private source if an endpoint is set, the tax service if
    /// all its settings are, then Астрал, Инфоком, ОФД.ру and Такском.
    pub fn new(c: &RegistryConfig) -> (r: OfdRegistry)
        ensures
            r.kinds() == (if c.private1_endpoint is Some {
                seq![ProviderKind::Private1]
            } else {
                Seq::empty()
            }) + (if c.irkkt_mobile_client_secret is Some && c.irkkt_mobile_device_id is Some
                && c.irkkt_mobile_api_base is Some {
                seq![ProviderKind::IrkktMobile]
            } else {
                Seq::empty()
            }) + seq![ProviderKind::Astral, ProviderKind::Icom24, ProviderKind::OfdRu, ProviderKind::Taxcom],
    {
        let mut ret = OfdRegistry { all: Vec::new() };
        let ghost pre: Seq<ProviderKind> = Seq::empty();
        if let Some(endpoint) = &c.private1_endpoint {
            ret.add(OfdProvider::Private1(Private1::new(endpoint.as_str())));
            proof { pre = pre.push(ProviderKind::Private1); }
        }
        match (&c.irkkt_mobile_client_secret, &c.irkkt_mobile_device_id, &c.irkkt_mobile_api_base) {
            (Some(s), Some(d), Some(a)) => {
                ret.add(OfdProvider::IrkktMobile(IrkktMobile::new(s.as_str(), d.as_str(), a.as_str())));
                proof { pre = pre.push(ProviderKind::IrkktMobile); }
            },
            _ => {},
        }
        assert(ret.kinds() == pre);
        ret.add(OfdProvider::Astral(Astral));
        ret.add(OfdProvider::Icom24(Icom24));
        ret.add(OfdProvider::OfdRu(OfdRu));
        ret.add(OfdProvider::Taxcom(Taxcom));
        ret
    }

    /// Adds a provider after the others.
    pub fn add(&mut self, ofd: OfdProvider)
        ensures
            final(self).kinds() == old(self).kinds().push(provider_kind(ofd)),
            final(self).all@ == old(self).all@.push(ofd),
    {
        self.all.push(ofd);
        assert(self.kinds() =~= old(self).kinds().push(provider_kind(ofd)));
    }

    /// Where the providers of kind `k` stand.
    fn positions(&self, k: Option<ProviderKind>) -> (r: Vec<usize>)
        ensures
            r@.len() == positions_of(self.kinds(), k).len(),
            forall|i: int| 0 <= i < r@.len() ==> #[trigger] r@[i] as int == positions_of(self.kinds(), k)[i],
    {
        let mut r: Vec<usize> = Vec::new();
        let mut i: usize = 0;
        while i < self.all.len()
            invariant
                i <= self.all.len(),
                r@.len() == positions_of(self.kinds().take(i as int), k).len(),
                forall|j: int| 0 <= j < r@.len() ==> #[trigger] r@[j] as int == positions_of(self.kinds().take(i as int), k)[j],
            decreases self.all.len() - i,
        {
            let pk = self.all[i].kind();
            proof {
                assert(self.kinds().take(i + 1).drop_last() =~= self.kinds().take(i as int));
                assert(self.kinds().take(i + 1).last() == pk);
            }
            if k == Some(pk) {
                r.push(i);
            }
            i = i + 1;
        }
        assert(self.kinds().take(i as int) =~= self.kinds());
        r
    }

    /// The fallback providers: private sources first, then the tax service.
    pub fn default(&self, rec: &Object) -> (r: Vec<usize>)
        ensures
            r@.len() == default_order(self.kinds()).len(),
            forall|i: int| 0 <= i < r@.len() ==> #[trigger] r@[i] as int == default_order(self.kinds())[i],
    {
        let mut r = self.positions(Some(ProviderKind::Private1));
        let b = self.positions(Some(ProviderKind::IrkktMobile));
        let ghost a = r@;
        let mut j: usize = 0;
        while j < b.len()
            invariant
                j <= b.len(),
                r@ == a + b@.take(j as int),
            decreases b.len() - j,
        {
            r.push(b[j]);
            j = j + 1;
            assert(r@ =~= a + b@.take(j as int));
        }
        assert(b@.take(j as int) =~= b@);
        r
    }

    /// Every provider, in the order they were added.
    pub fn all(&self) -> (r: Vec<usize>)
        ensures
            r@.len() == self.all@.len(),
            forall|i: int| 0 <= i < r@.len() ==> #[trigger] r@[i] as int == i,
    {
        let mut r: Vec<usize> = Vec::new();
        let mut i: usize = 0;
        while i < self.all.len()
            invariant
                i <= self.all.len(),
                r@.len() == i,
                forall|j: int| 0 <= j < i ==> #[trigger] r@[j] as int == j,
            decreases self.all.len() - i,
        {
            r.push(i);
            i = i + 1;
        }
        r
    }

    /// The providers to ask for `rec` when it names the provider `id`, in order.
    pub fn by_id(&self, id: &str, rec: &Object) -> (r: Vec<usize>)
        ensures
            r@.len() == by_id_order(self.kinds(), id@).len(),
            forall|i: int| 0 <= i < r@.len() ==> #[trigger] r@[i] as int == by_id_order(self.kinds(), id@)[i],
    {
        let k = ProviderKind::from_id(id);
        let mut r = self.positions(k);
        let d = self.default(rec);
        let a = self.all();
        let ghost r0 = r@;
        let mut j: usize = 0;
        while j < d.len()
            invariant
                j <= d.len(),
                r@ == r0 + d@.take(j as int),
            decreases d.len() - j,
        {
            r.push(d[j]);
            j = j + 1;
            assert(r@ =~= r0 + d@.take(j as int));
        }
        assert(d@.take(j as int) =~= d@);
        let ghost r1 = r@;
        let mut m: usize = 0;
        while m < a.len()
            invariant
                m <= a.len(),
                r@ == r1 + a@.take(m as int),
            decreases a.len() - m,
        {
            r.push(a[m]);
            m = m + 1;
            assert(r@ =~= r1 + a@.take(m as int));
        }
        assert(a@.take(m as int) =~= a@);
        proof {
            let want = by_id_order(self.kinds(), id@);
            assert forall|i: int| 0 <= i < r@.len() implies #[trigger] r@[i] as int == want[i] by {
                let p = positions_of(self.kinds(), kind_with_id(id@));
                let q = default_order(self.kinds());
                if i < p.len() {
                    assert(r@[i] == r0[i]);
                } else if i < p.len() + q.len() {
                    assert(r@[i] == d@[i - p.len()]);
                } else {
                    assert(r@[i] == a@[i - p.len() - q.len()]);
                }
            }
        }
        r
    }

    /// Picks the provider to ask for `rec` when it names `id`, and notes its
    /// identifier in `rec`; `InvalidFormat` when there is no provider at all.
    pub fn fill(&self, id: &str, rec: &mut Object) -> (r: Result<usize, FiscalError>)
        ensures
            by_id_order(self.kinds(), id@).len() == 0 ==> r == Err::<usize, FiscalError>(FiscalError::InvalidFormat)
                && final(rec)@ == old(rec)@,
            by_id_order(self.kinds(), id@).len() > 0 ==> {
                let i = by_id_order(self.kinds(), id@)[0];
                &&& r == Ok::<usize, FiscalError>(i as usize)
                &&& 0 <= i < self.all@.len()
                &&& final(rec)@ == old(rec)@.push((ProviderId::TAG, FieldValue::Text(kind_id(self.kinds()[i]))))
            },
    {
        let order = self.by_id(id, &*rec);
        if order.len() == 0 {
            return Err(FiscalError::InvalidFormat);
        }
        let i = order[0];
        proof {
            let ks = self.kinds();
            lemma_positions_of_bounds(ks, kind_with_id(id@));
            lemma_positions_of_bounds(ks, Some(ProviderKind::Private1));
            lemma_positions_of_bounds(ks, Some(ProviderKind::IrkktMobile));
            let p = positions_of(ks, kind_with_id(id@));
            let q = default_order(ks);
            if p.len() > 0 {
                assert(by_id_order(ks, id@)[0] == p[0]);
            } else if q.len() > 0 {
                assert(by_id_order(ks, id@)[0] == q[0]);
                let p1 = positions_of(ks, Some(ProviderKind::Private1));
                if p1.len() > 0 {
                    assert(q[0] == p1[0]);
                } else {
                    assert(q[0] == positions_of(ks, Some(ProviderKind::IrkktMobile))[0]);
                }
            } else {
                assert(by_id_order(ks, id@)[0] == 0);
            }
        }
        let k = self.all[i].kind();
        let name = k.id();
        rec.push_text(ProviderId::TAG, name.to_owned());
        Ok(i)
    }
}

/// The identifier of every kind reads back as that kind.
pub proof fn lemma_kind_id_reads_back(k: ProviderKind)
    ensures
        kind_with_id(kind_id(k)) == Some(k),
{
    reveal_strlit("private1");
    reveal_strlit("irkkt-mobile");
    reveal_strlit("astral");
    reveal_strlit("icom24");
    reveal_strlit("ofd-ru");
    reveal_strlit("taxcom");
    reveal_strlit("1ofd");
    reveal_strlit("eofd");
    reveal_strlit("beeline");
    let s = kind_id(k);
    assert(s.len() != kind_id(ProviderKind::Private1).len() || s[0] != kind_id(ProviderKind::Private1)[0] || k == ProviderKind::Private1);
    assert(s.len() != kind_id(ProviderKind::IrkktMobile).len() || s[0] != kind_id(ProviderKind::IrkktMobile)[0] || k == ProviderKind::IrkktMobile);
    assert(s.len() != kind_id(ProviderKind::Astral).len() || s[0] != kind_id(ProviderKind::Astral)[0] || k == ProviderKind::Astral);
    assert(s.len() != kind_id(ProviderKind::Icom24).len() || s[0] != kind_id(ProviderKind::Icom24)[0] || k == ProviderKind::Icom24);
    assert(s.len() != kind_id(ProviderKind::OfdRu).len() || s[0] != kind_id(ProviderKind::OfdRu)[0] || k == ProviderKind::OfdRu);
    assert(s.len() != kind_id(ProviderKind::Taxcom).len() || s[0] != kind_id(ProviderKind::Taxcom)[0] || k == ProviderKind::Taxcom);
    assert(s.len() != kind_id(ProviderKind::OneOfd).len() || s[0] != kind_id(ProviderKind::OneOfd)[0] || k == ProviderKind::OneOfd);
    assert(s.len() != kind_id(ProviderKind::Eofd).len() || s[0] != kind_id(ProviderKind::Eofd)[0] || k == ProviderKind::Eofd);
}

/// The providers asked for a record that names the identifier of kind `k` begin with
/// every provider of that kind, in order.
pub proof fn lemma_by_id_starts_with_kind(ks: Seq<ProviderKind>, k: ProviderKind)
    ensures
        by_id_order(ks, kind_id(k)).take(positions_of(ks, Some(k)).len() as int) == positions_of(ks, Some(k)),
        forall|i: int| 0 <= i < positions_of(ks, Some(k)).len() ==> ks[#[trigger] by_id_order(ks, kind_id(k))[i]] == k,
{
    lemma_kind_id_reads_back(k);
    lemma_positions_of_bounds(ks, Some(k));
    let p = positions_of(ks, Some(k));
    let rest = default_order(ks) + all_positions(ks.len());
    assert(by_id_order(ks, kind_id(k)) =~= p + rest);
    assert((p + rest).take(p.len() as int) =~= p);
    assert forall|i: int| 0 <= i < p.len() implies ks[#[trigger] by_id_order(ks, kind_id(k))[i]] == k by {
        assert(by_id_order(ks, kind_id(k))[i] == p[i]);
    }
}

} // verus!
