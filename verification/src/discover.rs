//! Seed discovery: flattens the static catalogue of candidate domains into
//! the seed-URL list and the domain list. Reading and parsing the catalogue
//! file is the application's part; it hands the records in as plain values.

use vstd::prelude::*;

use crate::text::clone_strings;

verus! {

/// One record of the seed catalogue.
#[derive(Debug)]
pub struct EduDomain {
    pub name: String,
    pub domains: Vec<String>,
    pub web_pages: Vec<String>,
    pub country: String,
    pub alpha_two_code: String,
    pub state_province: Option<String>,
}

/// The flattened web pages of the records, in record order.
pub open spec fn spec_web_pages(records: Seq<EduDomainView>) -> Seq<Seq<char>>
    decreases records.len(),
{
    if records.len() == 0 {
        Seq::empty()
    } else {
        spec_web_pages(records.drop_last()) + records.last().web_pages
    }
}

/// The flattened domains of the records, in record order.
pub open spec fn spec_domains(records: Seq<EduDomainView>) -> Seq<Seq<char>>
    decreases records.len(),
{
    if records.len() == 0 {
        Seq::empty()
    } else {
        spec_domains(records.drop_last()) + records.last().domains
    }
}

/// The mathematical content of a catalogue record.
#[verifier::ext_equal]
pub struct EduDomainView {
    pub name: Seq<char>,
    pub domains: Seq<Seq<char>>,
    pub web_pages: Seq<Seq<char>>,
    pub country: Seq<char>,
    pub alpha_two_code: Seq<char>,
    pub state_province: Option<Seq<char>>,
}

impl View for EduDomain {
    type V = EduDomainView;

    open spec fn view(&self) -> EduDomainView {
        EduDomainView {
            name: self.name@,
            domains: self.domains.deep_view(),
            web_pages: self.web_pages.deep_view(),
            country: self.country@,
            alpha_two_code: self.alpha_two_code@,
            state_province: self.state_province.deep_view(),
        }
    }
}

impl DeepView for EduDomain {
    type V = EduDomainView;

    open spec fn deep_view(&self) -> EduDomainView {
        self.view()
    }
}

/// Flattens the catalogue records: the seed URLs (every record's web pages)
/// and the domains, each concatenated in record order.
#[verifier::loop_isolation(false)]
pub fn get_domains_and_webpages(records: &Vec<EduDomain>) -> (r: (Vec<String>, Vec<String>))
    ensures
        r.0.deep_view() == spec_web_pages(records.deep_view()),
        r.1.deep_view() == spec_domains(records.deep_view()),
{
    let ghost dv = records.deep_view();
    let mut seed_urls: Vec<String> = Vec::new();
    let mut domains: Vec<String> = Vec::new();
    let mut i: usize = 0;
    proof {
        assert(dv.take(0) =~= Seq::<EduDomainView>::empty());
        assert(seed_urls.deep_view() =~= spec_web_pages(dv.take(0)));
        assert(domains.deep_view() =~= spec_domains(dv.take(0)));
    }
    while i < records.len()
        invariant
            i <= records@.len(),
            seed_urls.deep_view() == spec_web_pages(dv.take(i as int)),
            domains.deep_view() == spec_domains(dv.take(i as int)),
        decreases records@.len() - i,
    {
        let mut web_pages_vec = clone_strings(&records[i].web_pages);
        let mut domains_vec = clone_strings(&records[i].domains);
        let ghost seeds_prev = seed_urls.deep_view();
        let ghost domains_prev = domains.deep_view();
        let ghost web_view = web_pages_vec.deep_view();
        let ghost dom_view = domains_vec.deep_view();
        seed_urls.append(&mut web_pages_vec);
        domains.append(&mut domains_vec);
        proof {
            assert(dv.take(i + 1).drop_last() =~= dv.take(i as int));
            assert(dv.take(i + 1).last() == dv[i as int]);
            assert(seed_urls.deep_view() =~= seeds_prev + web_view);
            assert(domains.deep_view() =~= domains_prev + dom_view);
        }
        i = i + 1;
    }
    proof {
        assert(dv.take(records@.len() as int) =~= dv);
    }
    (seed_urls, domains)
}

} // verus!
