//! The `orgs` command: one row per organization the identity can see, in
//! the order the service returned them.

use crate::github::OrgInfo;
use crate::github::OrgInfoV;
use crate::seq_util::seq_view;
use vstd::prelude::*;
use vstd::string::StringExecFns;

verus! {

/// One row of the `orgs` listing.
#[derive(Debug)]
pub struct OrgSummary {
    pub name: String,
    pub description: String,
    pub url: String,
}

pub struct OrgSummaryV {
    pub name: Seq<char>,
    pub description: Seq<char>,
    pub url: Seq<char>,
}

impl View for OrgSummary {
    type V = OrgSummaryV;

    open spec fn view(&self) -> OrgSummaryV {
        OrgSummaryV { name: self.name@, description: self.description@, url: self.url@ }
    }
}

/// The row of one organization: its login, its description or nothing, and
/// its profile address.
pub open spec fn spec_org_summary(o: OrgInfoV) -> OrgSummaryV {
    OrgSummaryV {
        name: o.login,
        description: match o.description {
            Some(d) => d,
            None => Seq::empty(),
        },
        url: "https://github.com/"@ + o.login,
    }
}

/// Builds the rows of the `orgs` listing.
pub fn build_org_summaries(orgs: &Vec<OrgInfo>) -> (r: Vec<OrgSummary>)
    ensures
        seq_view(r@) == seq_view(orgs@).map_values(|o: OrgInfoV| spec_org_summary(o)),
{
    let ghost osv: Seq<OrgInfoV> = seq_view(orgs@);
    let mut r: Vec<OrgSummary> = Vec::new();
    let mut i: usize = 0;
    while i < orgs.len()
        invariant
            i <= orgs@.len(),
            osv == seq_view(orgs@),
            osv.len() == orgs@.len(),
            seq_view(r@) == osv.take(i as int).map_values(|o: OrgInfoV| spec_org_summary(o)),
        decreases orgs@.len() - i,
    {
        let o = &orgs[i];
        let description = match &o.description {
            Some(d) => d.clone(),
            None => String::new(),
        };
        let url = String::from_str("https://github.com/").concat(o.login.as_str());
        let row = OrgSummary { name: o.login.clone(), description, url };
        proof {
            assert(osv[i as int] == orgs@[i as int]@);
            assert(row@ == spec_org_summary(osv[i as int]));
        }
        let ghost r_prev: Seq<OrgSummary> = r@;
        r.push(row);
        proof {
            assert(seq_view(r@) =~= seq_view(r_prev).push(spec_org_summary(osv[i as int])));
            assert(osv.take(i + 1).map_values(|o: OrgInfoV| spec_org_summary(o)) =~= osv.take(
                i as int,
            ).map_values(|o: OrgInfoV| spec_org_summary(o)).push(spec_org_summary(osv[i as int])));
        }
        i = i + 1;
    }
    proof {
        assert(osv.take(osv.len() as int) =~= osv);
    }
    r
}

} // verus!
