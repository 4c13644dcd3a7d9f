//! A concrete decision model: a communicating and triggered reactive
//! workload.  Its header covers every task, channel, source, upsample and
//! downsample name, one labelled relation per data-graph edge carrying the
//! message size in decimal, and one `trigger`-labelled relation per
//! trigger-graph edge.

use vstd::prelude::*;

use crate::headers::ArcView;
use crate::headers::DecisionHeaderView;
use crate::headers::DecisionModelHeader;
use crate::models::DecisionModel;
use crate::numfmt::dec_digits;
use crate::numfmt::u32_to_string;

verus! {

/// A periodic workload of communicating tasks with data and trigger graphs.
pub struct CommunicatingAndTriggeredReactiveWorkload {
    tasks: Vec<String>,
    task_sizes: Vec<u32>,
    task_computational_needs: Vec<(String, Vec<(String, u32)>)>,
    data_channels: Vec<String>,
    data_channel_sizes: Vec<u32>,
    data_graph_src: Vec<String>,
    data_graph_dst: Vec<String>,
    data_graph_message_size: Vec<u32>,
    periodic_sources: Vec<String>,
    periods_numerator: Vec<u32>,
    periods_denominator: Vec<u32>,
    offsets_numerator: Vec<u32>,
    offsets_denominator: Vec<u32>,
    upsamples: Vec<String>,
    upsample_repetitive_holds: Vec<u32>,
    upsample_initial_holds: Vec<u32>,
    downsamples: Vec<String>,
    downample_repetitive_skips: Vec<u32>,
    downample_initial_skips: Vec<u32>,
    trigger_graph_src: Vec<String>,
    trigger_graph_dst: Vec<String>,
    has_or_trigger_semantics: Vec<String>,
}

/// The header value of a workload given its element name lists and its two
/// edge lists: the covered elements are the concatenated names, the covered
/// relations one decimally-labelled arc per data edge followed by one
/// `trigger`-labelled arc per trigger edge.
pub open spec fn workload_view(
    tasks: Seq<Seq<char>>,
    data_channels: Seq<Seq<char>>,
    periodic_sources: Seq<Seq<char>>,
    upsamples: Seq<Seq<char>>,
    downsamples: Seq<Seq<char>>,
    data_src: Seq<Seq<char>>,
    data_dst: Seq<Seq<char>>,
    data_size: Seq<u32>,
    trig_src: Seq<Seq<char>>,
    trig_dst: Seq<Seq<char>>,
) -> DecisionHeaderView {
    DecisionHeaderView {
        category: "CommunicatingAndTriggeredReactiveWorkload"@,
        body_path: None,
        covered_elements: tasks + data_channels + periodic_sources + upsamples + downsamples,
        covered_relations: Seq::new(
            data_src.len(),
            |i: int|
                ArcView {
                    src: data_src[i],
                    src_port: None,
                    label: Some(dec_digits(data_size[i] as int)),
                    dst: data_dst[i],
                    dst_port: None,
                },
        ) + Seq::new(
            trig_src.len(),
            |i: int|
                ArcView {
                    src: trig_src[i],
                    src_port: None,
                    label: Some("trigger"@),
                    dst: trig_dst[i],
                    dst_port: None,
                },
        ),
    }
}

impl CommunicatingAndTriggeredReactiveWorkload {
    /// Both graphs name a source, a destination and, for data edges, a
    /// message size for the same number of edges.
    #[verifier::type_invariant]
    pub closed spec fn wf(self) -> bool {
        &&& self.data_graph_src@.len() == self.data_graph_dst@.len()
        &&& self.data_graph_src@.len() == self.data_graph_message_size@.len()
        &&& self.trigger_graph_src@.len() == self.trigger_graph_dst@.len()
    }

    /// The relations of the data graph: one labelled arc per edge, the label
    /// being the message size in decimal.
    pub closed spec fn data_relations(self) -> Seq<ArcView> {
        Seq::new(
            self.data_graph_src@.len(),
            |i: int|
                ArcView {
                    src: self.data_graph_src@[i]@,
                    src_port: None,
                    label: Some(dec_digits(self.data_graph_message_size@[i] as int)),
                    dst: self.data_graph_dst@[i]@,
                    dst_port: None,
                },
        )
    }

    /// The relations of the trigger graph: one `trigger`-labelled arc per
    /// edge.
    pub closed spec fn trigger_relations(self) -> Seq<ArcView> {
        Seq::new(
            self.trigger_graph_src@.len(),
            |i: int|
                ArcView {
                    src: self.trigger_graph_src@[i]@,
                    src_port: None,
                    label: Some("trigger"@),
                    dst: self.trigger_graph_dst@[i]@,
                    dst_port: None,
                },
        )
    }

    /// Build a workload; the edge vectors must agree in length.
    pub fn new(
        tasks: Vec<String>,
        task_sizes: Vec<u32>,
        task_computational_needs: Vec<(String, Vec<(String, u32)>)>,
        data_channels: Vec<String>,
        data_channel_sizes: Vec<u32>,
        data_graph_src: Vec<String>,
        data_graph_dst: Vec<String>,
        data_graph_message_size: Vec<u32>,
        periodic_sources: Vec<String>,
        periods_numerator: Vec<u32>,
        periods_denominator: Vec<u32>,
        offsets_numerator: Vec<u32>,
        offsets_denominator: Vec<u32>,
        upsamples: Vec<String>,
        upsample_repetitive_holds: Vec<u32>,
        upsample_initial_holds: Vec<u32>,
        downsamples: Vec<String>,
        downample_repetitive_skips: Vec<u32>,
        downample_initial_skips: Vec<u32>,
        trigger_graph_src: Vec<String>,
        trigger_graph_dst: Vec<String>,
        has_or_trigger_semantics: Vec<String>,
    ) -> (r: Option<Self>)
        ensures
            r is Some <==> (data_graph_src@.len() == data_graph_dst@.len() && data_graph_src@.len()
                == data_graph_message_size@.len() && trigger_graph_src@.len()
                == trigger_graph_dst@.len()),
            r matches Some(w) ==> w.decision_view() == workload_view(
                tasks.deep_view(),
                data_channels.deep_view(),
                periodic_sources.deep_view(),
                upsamples.deep_view(),
                downsamples.deep_view(),
                data_graph_src.deep_view(),
                data_graph_dst.deep_view(),
                data_graph_message_size@,
                trigger_graph_src.deep_view(),
                trigger_graph_dst.deep_view(),
            ),
    {
        if data_graph_src.len() != data_graph_dst.len() || data_graph_src.len()
            != data_graph_message_size.len() || trigger_graph_src.len()
            != trigger_graph_dst.len() {
            return None;
        }
        let w = Self {
                tasks,
                task_sizes,
                task_computational_needs,
                data_channels,
                data_channel_sizes,
                data_graph_src,
                data_graph_dst,
                data_graph_message_size,
                periodic_sources,
                periods_numerator,
                periods_denominator,
                offsets_numerator,
                offsets_denominator,
                upsamples,
                upsample_repetitive_holds,
                upsample_initial_holds,
                downsamples,
                downample_repetitive_skips,
                downample_initial_skips,
                trigger_graph_src,
                trigger_graph_dst,
                has_or_trigger_semantics,
            };
        proof {
            let wv = workload_view(
                w.tasks.deep_view(),
                w.data_channels.deep_view(),
                w.periodic_sources.deep_view(),
                w.upsamples.deep_view(),
                w.downsamples.deep_view(),
                w.data_graph_src.deep_view(),
                w.data_graph_dst.deep_view(),
                w.data_graph_message_size@,
                w.trigger_graph_src.deep_view(),
                w.trigger_graph_dst.deep_view(),
            );
            assert(w.decision_view().covered_elements =~= wv.covered_elements);
            assert(w.decision_view().covered_relations =~= wv.covered_relations);
            assert(w.decision_view() =~= wv);
        }
        Some(w)
    }
}

/// Append copies of all strings of `src`.
fn extend_strings(dst: &mut Vec<String>, src: &Vec<String>)
    ensures
        final(dst)@ == old(dst)@ + src@,
{
    let mut i: usize = 0;
    while i < src.len()
        invariant
            i <= src.len(),
            dst@ == old(dst)@ + src@.take(i as int),
        decreases src.len() - i,
    {
        dst.push(src[i].clone());
        proof {
            assert(old(dst)@ + src@.take(i as int) + seq![src@[i as int]] =~= old(dst)@
                + src@.take(i as int + 1));
        }
        i += 1;
    }
    proof {
        assert(old(dst)@ + src@.take(src@.len() as int) =~= old(dst)@ + src@);
    }
}

impl DecisionModel for CommunicatingAndTriggeredReactiveWorkload {
    closed spec fn decision_view(&self) -> DecisionHeaderView {
        DecisionHeaderView {
            category: "CommunicatingAndTriggeredReactiveWorkload"@,
            body_path: None,
            covered_elements: self.tasks.deep_view() + self.data_channels.deep_view()
                + self.periodic_sources.deep_view() + self.upsamples.deep_view()
                + self.downsamples.deep_view(),
            covered_relations: self.data_relations() + self.trigger_relations(),
        }
    }

    fn unique_identifier(&self) -> (r: String)
        ensures
            r@ == self.decision_view().category,
    {
        "CommunicatingAndTriggeredReactiveWorkload".to_owned()
    }

    #[verifier::rlimit(100)]
    fn header(&self) -> (r: DecisionModelHeader)
        ensures
            r@ == self.decision_view(),
    {
        proof {
            use_type_invariant(self);
        }
        let mut elems: Vec<String> = Vec::new();
        extend_strings(&mut elems, &self.tasks);
        extend_strings(&mut elems, &self.data_channels);
        extend_strings(&mut elems, &self.periodic_sources);
        extend_strings(&mut elems, &self.upsamples);
        extend_strings(&mut elems, &self.downsamples);
        proof {
            assert(elems.deep_view() =~= self.decision_view().covered_elements);
        }
        let mut rels: Vec<crate::headers::LabelledArcWithPorts> = Vec::new();
        let mut i: usize = 0;
        proof {
            assert(rels.deep_view() =~= self.data_relations().take(0));
        }
        while i < self.data_graph_src.len()
            invariant
                self.wf(),
                i <= self.data_graph_src@.len(),
                rels.deep_view() == self.data_relations().take(i as int),
            decreases self.data_graph_src@.len() - i,
        {
            let ghost before = rels.deep_view();
            let arc = crate::headers::LabelledArcWithPorts {
                src: self.data_graph_src[i].clone(),
                src_port: None,
                label: Some(u32_to_string(self.data_graph_message_size[i])),
                dst: self.data_graph_dst[i].clone(),
                dst_port: None,
            };
            proof {
                assert(arc@ == self.data_relations()[i as int]);
            }
            rels.push(arc);
            proof {
                assert(rels.deep_view() =~= before.push(self.data_relations()[i as int]));
                assert(rels.deep_view() =~= self.data_relations().take(i as int + 1));
            }
            i += 1;
        }
        proof {
            assert(self.data_relations().take(self.data_graph_src@.len() as int)
                =~= self.data_relations());
        }
        let mut j: usize = 0;
        while j < self.trigger_graph_src.len()
            invariant
                self.wf(),
                j <= self.trigger_graph_src@.len(),
                rels.deep_view() == self.data_relations() + self.trigger_relations().take(
                    j as int,
                ),
            decreases self.trigger_graph_src@.len() - j,
        {
            let ghost before = rels.deep_view();
            let trigger_label = "trigger".to_owned();
            let arc = crate::headers::LabelledArcWithPorts {
                src: self.trigger_graph_src[j].clone(),
                src_port: None,
                label: Some(trigger_label),
                dst: self.trigger_graph_dst[j].clone(),
                dst_port: None,
            };
            proof {
                assert(arc@ == self.trigger_relations()[j as int]);
            }
            rels.push(arc);
            proof {
                assert(rels.deep_view() =~= before.push(self.trigger_relations()[j as int]));
                assert(self.data_relations() + self.trigger_relations().take(j as int) + seq![
                    self.trigger_relations()[j as int],
                ] =~= self.data_relations() + self.trigger_relations().take(j as int + 1));
            }
            j += 1;
        }
        proof {
            assert(self.data_relations() + self.trigger_relations().take(
                self.trigger_graph_src@.len() as int,
            ) =~= self.data_relations() + self.trigger_relations());
        }
        let category = "CommunicatingAndTriggeredReactiveWorkload".to_owned();
        let r = DecisionModelHeader {
            category,
            body_path: None,
            covered_elements: elems,
            covered_relations: rels,
        };
        proof {
            assert(r@ =~= self.decision_view());
        }
        r
    }

    fn dominates(&self, o: &DecisionModelHeader) -> (r: bool)
        ensures
            r == (crate::headers::decision_cmp(self.decision_view(), o@) == Some(
                core::cmp::Ordering::Greater,
            )),
    {
        let h = self.header();
        match h.partial_cmp(o) {
            Some(core::cmp::Ordering::Greater) => true,
            _ => false,
        }
    }
}

} // verus!
