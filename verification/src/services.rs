//! The work of one merge, from the stored texts to the text that is stored.

use vstd::prelude::*;
use vstd::string::*;
use crate::clash::{ClashConfig, ConfigModel};
use crate::codec::{decode, decoded, doc_of, encode, written_as};
use crate::error::{ConfigError, ConfigErrorModel};
use crate::models::{ConfluenceModel, SubscribeSourceModel};
use crate::mux::{
    classified_entries, contributors, merged, mux_configs, source_models, sources_wf,
    SourceModel,
};
use crate::usage::{checked_aggregate, is_aggregate, sums_fit, UsageSummary};

verus! {

/// What one merge gives: the text of the merged document, and the usage
/// figures of its sources folded into one summary, which is absent where one
/// of the sums cannot be written in 64 bits.
#[derive(Debug)]
pub struct MuxOutcome {
    pub mux_content: String,
    pub usage: Option<UsageSummary>,
}

/// The usage figures of the sources.
pub open spec fn usages(sms: Seq<SubscribeSourceModel>) -> Seq<UsageSummary> {
    Seq::new(
        sms.len(),
        |i: int|
            UsageSummary {
                upload: sms[i].sub_upload,
                download: sms[i].sub_download,
                total: sms[i].sub_total,
                expire: sms[i].sub_expire,
            },
    )
}

/// The documents of the first `upto` sources, or the failure of the first
/// among them that has none: a source without content was never fetched, and
/// one whose content is no document cannot be merged.
pub open spec fn decoded_sources(sms: Seq<SubscribeSourceModel>, upto: int) -> Result<
    Seq<SourceModel>,
    ConfigErrorModel,
>
    decreases upto,
{
    if upto <= 0 {
        Ok(Seq::empty())
    } else {
        match decoded_sources(sms, upto - 1) {
            Err(e) => Err(e),
            Ok(before) => {
                let sm = sms[upto - 1];
                if sm.content@.len() == 0 {
                    Err(ConfigErrorModel::NotSync { subscribe_source_name: sm.name@ })
                } else {
                    match decoded(sm.content@) {
                        Err(e) => Err(e),
                        Ok(d) => Ok(before.push(SourceModel { name: sm.name@, config: d })),
                    }
                }
            },
        }
    }
}

/// The merged document of a template and its sources, or the failure that
/// ends the merge: of the template's text, of the first source that is
/// empty or no document, or of the first server that cannot be classified.
pub open spec fn muxed(cm: ConfluenceModel, sms: Seq<SubscribeSourceModel>) -> Result<
    ConfigModel,
    ConfigErrorModel,
> {
    match decoded(cm.template@) {
        Err(e) => Err(e),
        Ok(template) => match decoded_sources(sms, sms.len() as int) {
            Err(e) => Err(e),
            Ok(sources) => match classified_entries(contributors(cm.name@, template, sources)) {
                Err(e) => Err(e),
                Ok(servers) => Ok(merged(cm.name@, template, sources, servers)),
            },
        },
    }
}

/// The text of an outcome, or its failure.
pub open spec fn content_of(r: Result<MuxOutcome, ConfigError>) -> Result<String, ConfigError> {
    match r {
        Ok(out) => Ok(out.mux_content),
        Err(e) => Err(e),
    }
}

/// Whether `r` is the outcome of writing the document `doc` with the usage
/// figures of `sms`.
pub open spec fn is_outcome(
    r: Result<MuxOutcome, ConfigError>,
    doc: ConfigModel,
    sms: Seq<SubscribeSourceModel>,
) -> bool {
    exists|v: serde_yaml::Value|
        doc_of(v) == Some(doc) && #[trigger] written_as(v, content_of(r)) && match r {
            Ok(out) => match out.usage {
                Some(u) => sums_fit(usages(sms)) && is_aggregate(u, usages(sms)),
                None => !sums_fit(usages(sms)),
            },
            Err(_) => true,
        }
}

proof fn lemma_decoding_stays(sms: Seq<SubscribeSourceModel>, n: int, m: int)
    requires
        n <= m,
    ensures
        decoded_sources(sms, n) is Err ==> decoded_sources(sms, m) == decoded_sources(sms, n),
    decreases m - n,
{
    if n < m {
        lemma_decoding_stays(sms, n, m - 1);
    }
}

/// Merges the template of `cm` with the contents of its sources `sms` under
/// the name of `cm`, and folds the usage figures of the sources.
///
/// Nothing is merged where the template is no document, where a source is
/// empty or no document, or where the server of a proxy cannot be
/// classified: the first of these, in this order and in the order of the
/// sources, is the failure that is returned.
pub fn mux_one_confluence_impl(cm: &ConfluenceModel, sms: &Vec<SubscribeSourceModel>) -> (r:
    Result<MuxOutcome, ConfigError>)
    ensures
        match muxed(*cm, sms@) {
            Err(e) => r matches Err(x) && x@ == e,
            Ok(doc) => is_outcome(r, doc, sms@),
        },
{
    let template = match decode(cm.template.as_str()) {
        Ok(template) => template,
        Err(e) => {
            return Err(e);
        },
    };
    let mut sources: Vec<(&str, ClashConfig)> = Vec::new();
    let mut figures: Vec<UsageSummary> = Vec::new();
    let mut i: usize = 0;
    proof {
        assert(source_models(sources@) =~= Seq::<SourceModel>::empty());
    }
    while i < sms.len()
        invariant
            i <= sms.len(),
            decoded(cm.template@) == Ok::<ConfigModel, ConfigErrorModel>(template@),
            template.wf(),
            decoded_sources(sms@, i as int) is Ok,
            decoded_sources(sms@, i as int)->Ok_0 == source_models(sources@),
            sources_wf(source_models(sources@)),
            figures@ == usages(sms@).subrange(0, i as int),
        decreases sms.len() - i,
    {
        let sm = &sms[i];
        proof {
            lemma_decoding_stays(sms@, i + 1, sms@.len() as int);
        }
        if sm.content.as_str().unicode_len() == 0 {
            proof {
                assert(decoded_sources(sms@, i + 1) is Err);
            }
            return Err(ConfigError::NotSync { subscribe_source_name: sm.name.clone() });
        }
        let config = match decode(sm.content.as_str()) {
            Ok(config) => config,
            Err(e) => {
                proof {
                    assert(decoded_sources(sms@, i + 1) is Err);
                }
                return Err(e);
            },
        };
        let ghost before = source_models(sources@);
        sources.push((sm.name.as_str(), config));
        figures.push(
            UsageSummary {
                upload: sm.sub_upload,
                download: sm.sub_download,
                total: sm.sub_total,
                expire: sm.sub_expire,
            },
        );
        proof {
            assert(source_models(sources@) =~= before.push(
                SourceModel { name: sm.name@, config: config@ },
            ));
            assert(figures@ =~= usages(sms@).subrange(0, i + 1));
            let now = source_models(sources@);
            assert forall|k: int| 0 <= k < now.len() implies crate::codec::config_wf(
                (#[trigger] now[k]).config,
            ) by {
                if k < before.len() {
                    assert(now[k] == before[k]);
                }
            }
        }
        i = i + 1;
    }
    proof {
        assert(usages(sms@).subrange(0, i as int) =~= usages(sms@));
    }
    let usage = checked_aggregate(&figures);
    let doc = match mux_configs(cm.name.as_str(), &template, sources.as_slice()) {
        Ok(doc) => doc,
        Err(e) => {
            return Err(e);
        },
    };
    let r = match encode(&doc) {
        Ok(mux_content) => Ok(MuxOutcome { mux_content, usage }),
        Err(e) => Err(e),
    };
    r
}

/// Nothing is merged where a source has no content: whatever the other
/// sources hold, the merge fails.
pub proof fn lemma_empty_source_aborts(cm: ConfluenceModel, sms: Seq<SubscribeSourceModel>, i: int)
    requires
        0 <= i < sms.len(),
        sms[i].content@.len() == 0,
    ensures
        muxed(cm, sms) is Err,
{
    assert(decoded_sources(sms, i + 1) is Err);
    lemma_decoding_stays(sms, i + 1, sms.len() as int);
}

} // verus!
