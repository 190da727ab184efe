//! Selection of layers.
use oxidesfu_media::video_layer_selector::decision_cache::{
    EntityTooOld, Notice, SelectorDecision, SelectorDecisionCache,
};
use oxidesfu_media::video_layer_selector::{
    deliver_decisions, DecodeTarget, DecodeTargetIndicationLite,
    DependencyDescriptorDecodeTargetLite, FrameChain, FrameDependencyTemplateLite,
    FrameNumberWrapperLite, SimulcastFrameLite, SimulcastSelectorLite, TargetMismatch,
    VideoLayerLite, VideoLayerSelectorResultLite, WrapAroundU16ToU64,
};

fn in_order(a: u16, b: u16) -> bool {
    let diff = a.wrapping_sub(b);
    diff < 0x8000 || (diff == 0x8000 && a > b)
}

fn next_u32(seed: &mut u32) -> u32 {
    *seed = seed.wrapping_mul(1664525).wrapping_add(1013904223);
    *seed
}

fn get_frame(base: u16, inorder: bool, seed: &mut u32) -> u16 {
    if inorder {
        return base.wrapping_add((next_u32(seed) & 0x7fff) as u16);
    }

    loop {
        let ret = base
            .wrapping_add((next_u32(seed) & 0x7fff) as u16)
            .wrapping_add(0x8000);
        if !in_order(ret, base) {
            return ret;
        }
    }
}

#[test]
fn decode_target_matches_upstream_contract() {
    let target = DependencyDescriptorDecodeTargetLite {
        target: 1,
        spatial: 1,
        temporal: 2,
    };

    // no chain
    let dt = DecodeTarget::new(target, None);
    assert!(dt.valid(&[]));
    assert!(
        dt.on_frame(
            &[],
            &FrameDependencyTemplateLite {
                decode_target_indications: vec![],
                chain_diffs: vec![],
            }
        )
        .is_err()
    );

    let ret = dt
        .on_frame(
            &[],
            &FrameDependencyTemplateLite {
                decode_target_indications: vec![
                    DecodeTargetIndicationLite::NotPresent,
                    DecodeTargetIndicationLite::Required,
                ],
                chain_diffs: vec![],
            },
        )
        .expect("decode target should parse indications");
    assert!(ret.target_valid);
    assert_eq!(ret.dti, DecodeTargetIndicationLite::Required);

    // with chain
    let mut decisions = SelectorDecisionCache::new(256, 80);
    let mut chains = vec![FrameChain::new(0), FrameChain::new(1)];
    let mut dt = DecodeTarget::new(target, Some(1));
    chains[1].begin_update_active();
    dt.update_active(1 << dt.target.target, &mut chains);
    chains[1].end_update_active();

    assert!(dt.active());
    assert!(!dt.valid(&chains));

    let frame = FrameDependencyTemplateLite {
        decode_target_indications: vec![
            DecodeTargetIndicationLite::NotPresent,
            DecodeTargetIndicationLite::Required,
        ],
        chain_diffs: vec![0, 0],
    };

    assert!(chains[1].on_frame(&mut decisions, 1, &frame));
    assert!(dt.valid(&chains));

    let ret = dt
        .on_frame(&chains, &frame)
        .expect("decode target with chain should return result");
    assert!(ret.target_valid);
    assert_eq!(ret.dti, DecodeTargetIndicationLite::Required);
}

#[test]
fn frame_chain_matches_upstream_contract() {
    let mut decisions = SelectorDecisionCache::new(256, 3);
    let mut chains = vec![FrameChain::new(0)];
    assert!(chains[0].broken());

    let frame_no_diff = FrameDependencyTemplateLite {
        decode_target_indications: vec![],
        chain_diffs: vec![0],
    };

    assert!(!chains[0].on_frame(&mut decisions, 1, &frame_no_diff));

    chains[0].begin_update_active();
    chains[0].update_active(true);
    chains[0].end_update_active();

    assert!(chains[0].on_frame(&mut decisions, 1, &frame_no_diff));
    deliver_decisions(&decisions.add_forwarded(1), &mut chains);

    let frame_diff_1 = FrameDependencyTemplateLite {
        decode_target_indications: vec![],
        chain_diffs: vec![1],
    };

    assert!(chains[0].on_frame(&mut decisions, 2, &frame_diff_1));
    deliver_decisions(&decisions.add_forwarded(2), &mut chains);

    assert!(chains[0].on_frame(&mut decisions, 5, &frame_diff_1));
    deliver_decisions(&decisions.add_forwarded(5), &mut chains);

    assert!(chains[0].on_frame(&mut decisions, 4, &frame_diff_1));
    deliver_decisions(&decisions.add_forwarded(4), &mut chains);

    deliver_decisions(&decisions.add_forwarded(7), &mut chains);
    assert!(chains[0].broken());

    assert!(chains[0].on_frame(&mut decisions, 1000, &frame_no_diff));
    assert!(!chains[0].broken());
    deliver_decisions(&decisions.add_forwarded(1000), &mut chains);

    assert!(chains[0].on_frame(&mut decisions, 1002, &frame_diff_1));
    deliver_decisions(&decisions.add_dropped(1001), &mut chains);
    assert!(chains[0].broken());

    assert!(chains[0].on_frame(&mut decisions, 2000, &frame_no_diff));
    deliver_decisions(&decisions.add_forwarded(2000), &mut chains);
    deliver_decisions(&decisions.add_dropped(2001), &mut chains);
    assert!(!chains[0].on_frame(&mut decisions, 2002, &frame_diff_1));
    assert!(chains[0].broken());
}

#[test]
fn frame_number_wrapper_matches_upstream_contract() {
    let mut wrapper = FrameNumberWrapperLite::default();
    let mut wrap_around = WrapAroundU16ToU64::default();
    let mut seed = 0x1a2b3c4du32;

    let mut first_f: u16 = 1000;

    let mut test_frame_order = |frame: u16,
                                is_key_frame: bool,
                                frame2: u16,
                                is_key_frame2: bool,
                                expect_in_order: bool| {
        let frame_unwrap = wrap_around.update(frame);
        let wrapped_frame = wrapper.update_and_get(frame_unwrap, is_key_frame) as u16;

        let _ = wrap_around.update(frame.wrapping_add(frame2.wrapping_sub(frame) / 2));

        let frame2_unwrap = wrap_around.update(frame2);
        let wrapped_frame2 = wrapper.update_and_get(frame2_unwrap, is_key_frame2) as u16;

        assert_eq!(
            expect_in_order,
            in_order(wrapped_frame2, wrapped_frame),
            "frame {}, frame2 {}, wrappedFrame {}, wrappedFrame2 {}",
            frame,
            frame2,
            wrapped_frame,
            wrapped_frame2
        );

        if !is_key_frame2 {
            assert_eq!(
                frame2.wrapping_sub(frame),
                wrapped_frame2.wrapping_sub(wrapped_frame)
            );
        }
    };

    let mut second_f = get_frame(first_f, true, &mut seed);
    test_frame_order(first_f, true, second_f, false, true);

    for _ in 0..100 {
        first_f = second_f;
        second_f = get_frame(first_f, true, &mut seed);
        test_frame_order(first_f, false, second_f, false, true);

        first_f = second_f;
        second_f = get_frame(first_f, false, &mut seed);
        if second_f.wrapping_sub(first_f) == 0x8000 {
            second_f = second_f.wrapping_add(1);
        }
        test_frame_order(first_f, false, second_f, false, false);

        first_f = second_f;
        second_f = get_frame(first_f, true, &mut seed);
        test_frame_order(first_f, false, second_f, true, true);

        first_f = second_f;
        second_f = get_frame(first_f, true, &mut seed);
        test_frame_order(first_f, false, second_f, false, true);

        first_f = second_f;
        second_f = get_frame(first_f, false, &mut seed);
        test_frame_order(first_f, false, second_f, true, true);
    }
}

fn key_frame_on_layer(spatial: i32, temporal: i32) -> SimulcastFrameLite {
    SimulcastFrameLite {
        is_key_frame: true,
        video_layer: VideoLayerLite { spatial, temporal },
    }
}

#[test]
fn simulcast_select_acquires_target_layer_directly_matches_upstream_contract() {
    let mut selector = SimulcastSelectorLite::new();
    selector.set_enable_start_at_desired_quality(true);
    selector.set_max(VideoLayerLite {
        spatial: 2,
        temporal: 2,
    });
    selector.set_max_seen(VideoLayerLite {
        spatial: 2,
        temporal: 2,
    });
    selector.set_target(VideoLayerLite {
        spatial: 2,
        temporal: 2,
    });
    selector.set_request_spatial(2);
    selector.set_current(VideoLayerLite::invalid());

    assert!(!selector.select(key_frame_on_layer(0, 2), 0).is_selected);
    assert!(!selector.get_current().is_valid());

    assert!(!selector.select(key_frame_on_layer(1, 2), 1).is_selected);
    assert!(!selector.get_current().is_valid());

    assert!(selector.select(key_frame_on_layer(2, 2), 2).is_selected);
    assert_eq!(selector.get_current().spatial, 2);
}

#[test]
fn simulcast_select_acquires_lowered_target_matches_upstream_contract() {
    let mut selector = SimulcastSelectorLite::new();
    selector.set_enable_start_at_desired_quality(true);
    selector.set_max(VideoLayerLite {
        spatial: 2,
        temporal: 2,
    });
    selector.set_max_seen(VideoLayerLite {
        spatial: 1,
        temporal: 2,
    });
    selector.set_target(VideoLayerLite {
        spatial: 1,
        temporal: 2,
    });
    selector.set_request_spatial(1);
    selector.set_current(VideoLayerLite::invalid());

    assert!(!selector.select(key_frame_on_layer(0, 2), 0).is_selected);
    assert!(!selector.get_current().is_valid());

    assert!(selector.select(key_frame_on_layer(1, 2), 1).is_selected);
    assert_eq!(selector.get_current().spatial, 1);
}

#[derive(Debug, Clone)]
struct FrameDependencyTemplateDdLite {
    spatial_id: i32,
    temporal_id: i32,
    decode_target_indications: Vec<DecodeTargetIndicationLite>,
    chain_diffs: Vec<i32>,
    frame_diffs: Vec<u64>,
}

#[derive(Debug, Clone)]
struct DdFrameLite {
    is_key_frame: bool,
    ext_frame_num: u64,
    ext_key_frame_num: u64,
    structure_updated: bool,
    active_decode_targets_updated: bool,
    active_decode_targets_bitmask: u32,
    decode_targets: Vec<DependencyDescriptorDecodeTargetLite>,
    decode_target_protected_by_chain: Vec<usize>,
    num_chains: usize,
    fd: FrameDependencyTemplateDdLite,
}

struct DependencyDescriptorSelectorLite {
    decisions: SelectorDecisionCache,
    key_frame_valid: bool,
    ext_key_frame_num: u64,
    chains: Vec<FrameChain>,
    decode_targets: Vec<DecodeTarget>,
    target_layer: VideoLayerLite,
    current_layer: VideoLayerLite,
    request_spatial: i32,
}

impl DependencyDescriptorSelectorLite {
    fn new() -> Self {
        Self {
            decisions: SelectorDecisionCache::new(256, 80),
            key_frame_valid: false,
            ext_key_frame_num: 0,
            chains: Vec::new(),
            decode_targets: Vec::new(),
            target_layer: VideoLayerLite::invalid(),
            current_layer: VideoLayerLite::invalid(),
            request_spatial: -1,
        }
    }

    fn drop_frame(&mut self, ext_frame_num: u64) {
        let told = self.decisions.add_dropped(ext_frame_num);
        deliver_decisions(&told, &mut self.chains);
    }

    fn set_target(&mut self, layer: VideoLayerLite) {
        self.target_layer = layer;
    }

    fn get_target(&self) -> VideoLayerLite {
        self.target_layer
    }

    fn set_request_spatial(&mut self, spatial: i32) {
        self.request_spatial = spatial;
    }

    fn get_current(&self) -> VideoLayerLite {
        self.current_layer
    }

    fn invalidate_key_frame(&mut self) {
        self.key_frame_valid = false;
        self.chains.clear();
        self.decode_targets.clear();
    }

    fn check_sync(&self) -> (bool, i32) {
        let layer = self.request_spatial;
        if !self.current_layer.is_valid() || !self.key_frame_valid {
            return (false, layer);
        }

        for dt in &self.decode_targets {
            if dt.active() && dt.target.spatial == layer && dt.valid(&self.chains) {
                return (true, layer);
            }
        }

        (false, layer)
    }

    fn update_dependency_structure(&mut self, frame: &DdFrameLite) {
        self.ext_key_frame_num = frame.ext_frame_num;
        self.key_frame_valid = true;

        self.chains.clear();
        for chain_idx in 0..frame.num_chains {
            self.chains.push(FrameChain::new(chain_idx));
        }

        let mut new_targets = Vec::with_capacity(frame.decode_targets.len());
        for dt in &frame.decode_targets {
            let chain = if frame.num_chains == 0 {
                None
            } else {
                frame
                    .decode_target_protected_by_chain
                    .get(dt.target)
                    .copied()
                    .filter(|idx| *idx < self.chains.len())
            };
            new_targets.push(DecodeTarget::new(*dt, chain));
        }
        self.decode_targets = new_targets;
    }

    fn update_active_decode_targets(&mut self, bitmask: u32) {
        for chain in &mut self.chains {
            chain.begin_update_active();
        }

        for dt in &mut self.decode_targets {
            dt.update_active(bitmask, &mut self.chains);
        }

        for chain in &mut self.chains {
            chain.end_update_active();
        }
    }

    fn select(&mut self, frame: &DdFrameLite) -> VideoLayerSelectorResultLite {
        let mut result = VideoLayerSelectorResultLite::default();

        if self.current_layer.is_valid() {
            result.is_relevant = true;
        }

        if !self.key_frame_valid && !frame.structure_updated {
            return result;
        }

        let sd = self
            .decisions
            .get_decision(frame.ext_frame_num)
            .unwrap_or(SelectorDecision::Missing);
        if sd == SelectorDecision::Dropped {
            return result;
        }
        if sd == SelectorDecision::Forwarded {
            result.is_selected = true;
            result.is_relevant = self.current_layer.is_valid();
            return result;
        }

        if frame.structure_updated {
            self.update_dependency_structure(frame);
        }

        if frame.ext_key_frame_num != self.ext_key_frame_num {
            self.drop_frame(frame.ext_frame_num);
            self.invalidate_key_frame();
            return result;
        }

        if frame.active_decode_targets_updated {
            self.update_active_decode_targets(frame.active_decode_targets_bitmask);
        }

        if frame.fd.chain_diffs.len() != self.chains.len() {
            self.drop_frame(frame.ext_frame_num);
            return result;
        }

        for chain in &mut self.chains {
            let _ = chain.on_frame(
                &mut self.decisions,
                frame.ext_frame_num,
                &FrameDependencyTemplateLite {
                    decode_target_indications: frame.fd.decode_target_indications.clone(),
                    chain_diffs: frame.fd.chain_diffs.clone(),
                },
            );
        }

        let mut highest: Option<(
            DependencyDescriptorDecodeTargetLite,
            DecodeTargetIndicationLite,
        )> = None;
        for dt in &self.decode_targets {
            if !dt.active()
                || dt.target.spatial > self.target_layer.spatial
                || dt.target.temporal > self.target_layer.temporal
            {
                continue;
            }

            let fr = match dt.on_frame(
                &self.chains,
                &FrameDependencyTemplateLite {
                    decode_target_indications: frame.fd.decode_target_indications.clone(),
                    chain_diffs: frame.fd.chain_diffs.clone(),
                },
            ) {
                Ok(v) => v,
                Err(_) => {
                    self.drop_frame(frame.ext_frame_num);
                    return result;
                }
            };

            if fr.target_valid {
                highest = Some((dt.target, fr.dti));
                break;
            }
        }

        let Some((target, dti)) = highest else {
            self.drop_frame(frame.ext_frame_num);
            return result;
        };

        if dti == DecodeTargetIndicationLite::NotPresent {
            self.drop_frame(frame.ext_frame_num);
            return result;
        }

        for diff in &frame.fd.frame_diffs {
            if *diff == 0 {
                continue;
            }
            let dep = frame.ext_frame_num.saturating_sub(*diff);
            if self
                .decisions
                .get_decision(dep)
                .unwrap_or(SelectorDecision::Missing)
                == SelectorDecision::Dropped
            {
                self.drop_frame(frame.ext_frame_num);
                return result;
            }
        }

        let next_layer = VideoLayerLite {
            spatial: target.spatial,
            temporal: target.temporal,
        };
        if self.current_layer != next_layer {
            result.is_switching = true;
            result.is_resuming = !self.current_layer.is_valid();
            self.current_layer = next_layer;
            result.is_relevant = true;
        }

        let told = self.decisions.add_forwarded(frame.ext_frame_num);
        deliver_decisions(&told, &mut self.chains);
        result.is_selected = true;
        result
    }
}

fn create_dd_frames(
    max_spatial: i32,
    max_temporal: i32,
    start_frame_number: u16,
) -> Vec<DdFrameLite> {
    let mut frames = Vec::new();
    let mut active_bitmask: u32 = 0;
    let mut decode_targets = Vec::new();
    let mut decode_targets_protected_by_chain = Vec::new();

    for spatial in 0..=max_spatial {
        for temporal in 0..=max_temporal {
            let target = decode_targets.len();
            decode_targets.push(DependencyDescriptorDecodeTargetLite {
                target,
                spatial,
                temporal,
            });
            decode_targets_protected_by_chain.push(spatial as usize);
            active_bitmask |= 1 << target;
        }
    }

    decode_targets.sort_by(|a, b| {
        if a.spatial != b.spatial {
            b.spatial.cmp(&a.spatial)
        } else {
            b.temporal.cmp(&a.temporal)
        }
    });

    let chain_diffs = vec![0; (max_spatial + 1) as usize];
    let mut dtis = vec![DecodeTargetIndicationLite::NotPresent; decode_targets.len()];
    for dt in &decode_targets {
        dtis[dt.target] = DecodeTargetIndicationLite::Switch;
    }

    let key_frame = DdFrameLite {
        is_key_frame: true,
        ext_frame_num: start_frame_number as u64,
        ext_key_frame_num: start_frame_number as u64,
        structure_updated: true,
        active_decode_targets_updated: true,
        active_decode_targets_bitmask: active_bitmask,
        decode_targets: decode_targets.clone(),
        decode_target_protected_by_chain: decode_targets_protected_by_chain.clone(),
        num_chains: (max_spatial + 1) as usize,
        fd: FrameDependencyTemplateDdLite {
            spatial_id: 0,
            temporal_id: 0,
            decode_target_indications: dtis.clone(),
            chain_diffs: chain_diffs.clone(),
            frame_diffs: Vec::new(),
        },
    };
    frames.push(key_frame.clone());

    let mut chain_prev: Vec<u64> = vec![start_frame_number as u64; (max_spatial + 1) as usize];
    let mut fnum = start_frame_number as u64 + 1;

    for _ in 0..10 {
        for idx in (0..decode_targets.len()).rev() {
            let dt = decode_targets[idx];
            let frame_chain_diffs: Vec<i32> = chain_prev
                .iter()
                .map(|prev| fnum.saturating_sub(*prev) as i32)
                .collect();

            let mut frame_dtis =
                vec![DecodeTargetIndicationLite::NotPresent; decode_targets.len()];
            for (k, slot) in frame_dtis.iter_mut().enumerate() {
                if k >= dt.target {
                    *slot = if dt.temporal == 0 {
                        DecodeTargetIndicationLite::Required
                    } else {
                        DecodeTargetIndicationLite::Switch
                    };
                }
            }

            let frame = DdFrameLite {
                is_key_frame: false,
                ext_frame_num: fnum,
                ext_key_frame_num: key_frame.ext_frame_num,
                structure_updated: false,
                active_decode_targets_updated: false,
                active_decode_targets_bitmask: active_bitmask,
                decode_targets: decode_targets.clone(),
                decode_target_protected_by_chain: decode_targets_protected_by_chain.clone(),
                num_chains: (max_spatial + 1) as usize,
                fd: FrameDependencyTemplateDdLite {
                    spatial_id: dt.spatial,
                    temporal_id: dt.temporal,
                    decode_target_indications: frame_dtis,
                    chain_diffs: frame_chain_diffs,
                    frame_diffs: Vec::new(),
                },
            };

            fnum += 1;
            if dt.temporal == 0 {
                chain_prev[dt.spatial as usize] = fnum;
            }
            frames.push(frame);
        }
    }

    frames
}

#[test]
fn dependency_descriptor_selector_matches_upstream_contract() {
    let mut selector = DependencyDescriptorSelectorLite::new();
    let target_layer = VideoLayerLite {
        spatial: 1,
        temporal: 2,
    };
    selector.set_target(target_layer);
    selector.set_request_spatial(1);

    // no dd ext equivalent path
    let ret = selector.select(&DdFrameLite {
        is_key_frame: false,
        ext_frame_num: 1,
        ext_key_frame_num: 1,
        structure_updated: false,
        active_decode_targets_updated: false,
        active_decode_targets_bitmask: 0,
        decode_targets: vec![],
        decode_target_protected_by_chain: vec![],
        num_chains: 0,
        fd: FrameDependencyTemplateDdLite {
            spatial_id: 0,
            temporal_id: 0,
            decode_target_indications: vec![],
            chain_diffs: vec![],
            frame_diffs: vec![],
        },
    });
    assert!(!ret.is_selected);
    assert!(!ret.is_relevant);

    // non-key frame before structure, dropped
    let ret = selector.select(&DdFrameLite {
        is_key_frame: false,
        ext_frame_num: 2,
        ext_key_frame_num: 2,
        structure_updated: false,
        active_decode_targets_updated: false,
        active_decode_targets_bitmask: 0,
        decode_targets: vec![],
        decode_target_protected_by_chain: vec![],
        num_chains: 0,
        fd: FrameDependencyTemplateDdLite {
            spatial_id: 1,
            temporal_id: 2,
            decode_target_indications: vec![],
            chain_diffs: vec![],
            frame_diffs: vec![],
        },
    });
    assert!(!ret.is_selected);
    assert!(!ret.is_relevant);

    let frames = create_dd_frames(2, 2, 3);
    let ret = selector.select(&frames[0]);
    assert!(ret.is_selected);
    assert_eq!(selector.get_current(), selector.get_target());
    let (sync, _) = selector.check_sync();
    assert!(sync);

    let mut belong_target_case = false;
    let mut exceed_target_case = false;
    let mut lower_target_case = false;
    let mut forwarded = Vec::<usize>::new();
    let mut dropped = Vec::<usize>::new();

    let mut idx = 1usize;
    while idx < frames.len() {
        let fd = &frames[idx].fd;
        let ret = selector.select(&frames[idx]);
        if fd.spatial_id == target_layer.spatial && fd.temporal_id == target_layer.temporal {
            assert!(ret.is_selected);
            belong_target_case = true;
            forwarded.push(idx);
        } else if fd.spatial_id < target_layer.spatial && fd.temporal_id == 0 {
            assert!(ret.is_selected);
            lower_target_case = true;
            forwarded.push(idx);
        } else if fd.spatial_id > target_layer.spatial || fd.temporal_id > target_layer.temporal
        {
            assert!(!ret.is_selected);
            exceed_target_case = true;
            dropped.push(idx);
        }

        if belong_target_case && exceed_target_case && lower_target_case {
            break;
        }
        idx += 1;
    }
    assert!(belong_target_case && exceed_target_case && lower_target_case);

    let ret = selector.select(&frames[forwarded[0]]);
    assert!(ret.is_selected);

    let ret = selector.select(&frames[dropped[0]]);
    assert!(!ret.is_selected);

    idx += 1;
    idx += 1;
    while idx < frames.len() {
        let fd = &frames[idx].fd;
        let ret = selector.select(&frames[idx]);
        if fd.spatial_id == target_layer.spatial && fd.temporal_id == target_layer.temporal {
            assert!(ret.is_selected);
            break;
        }
        idx += 1;
    }

    let mut not_decodable = frames[idx + 1].clone();
    not_decodable.fd.frame_diffs = vec![
        not_decodable
            .ext_frame_num
            .saturating_sub(frames[dropped[0]].ext_frame_num),
    ];
    let ret = selector.select(&not_decodable);
    assert!(!ret.is_selected);

    idx += 1;
    while idx < frames.len() {
        let fd = &frames[idx].fd;
        let ret = selector.select(&frames[idx]);
        if fd.spatial_id == target_layer.spatial && fd.temporal_id == target_layer.temporal {
            assert!(ret.is_selected);
            break;
        }
        idx += 1;
    }

    let mut broken = frames[idx + 1].clone();
    broken.fd.chain_diffs[target_layer.spatial as usize] = (not_decodable
        .ext_frame_num
        .saturating_sub(frames[dropped[0]].ext_frame_num))
        as i32;
    let ret = selector.select(&broken);
    assert!(!ret.is_selected);

    idx += 1;
    let mut switched_to_lower = false;
    while idx < frames.len() {
        let ret = selector.select(&frames[idx]);
        if ret.is_selected {
            assert!(target_layer.spatial > selector.get_current().spatial);
            switched_to_lower = true;
            break;
        }
        idx += 1;
    }
    assert!(switched_to_lower);

    selector.set_request_spatial(target_layer.spatial);
    let (locked, layer) = selector.check_sync();
    assert!(!locked);
    assert_eq!(layer, target_layer.spatial);

    selector.set_request_spatial(selector.get_current().spatial);
    let (locked, _) = selector.check_sync();
    assert!(locked);

    // frame from previous keyframe generation should be dropped and desync
    let previous_frames = create_dd_frames(2, 2, 1000);
    let ret = selector.select(&previous_frames[1]);
    assert!(!ret.is_selected);
    let (locked, _) = selector.check_sync();
    assert!(!locked);

    assert!(frames.iter().any(|f| f.is_key_frame));
}

#[test]
fn decisions_are_read_back_and_waiters_are_told() {
    let mut decisions = SelectorDecisionCache::new(64, 4);
    assert_eq!(decisions.get_decision(10), Ok(SelectorDecision::Missing));
    assert!(decisions.add_forwarded(10).is_empty());
    assert_eq!(decisions.get_decision(10), Ok(SelectorDecision::Forwarded));
    assert_eq!(decisions.get_decision(11), Ok(SelectorDecision::Unknown));
    assert!(decisions.expect_decision(12, 3));
    assert!(decisions.add_dropped(13).is_empty());
    assert_eq!(
        decisions.add_dropped(12),
        vec![Notice { waiter: 3, entity: 12, decision: SelectorDecision::Dropped }]
    );
    assert_eq!(decisions.get_decision(12), Ok(SelectorDecision::Dropped));
    assert_eq!(decisions.get_decision(13), Ok(SelectorDecision::Dropped));
}

#[test]
fn frames_that_left_the_window_are_too_old() {
    let mut decisions = SelectorDecisionCache::new(64, 4);
    let _ = decisions.add_forwarded(1);
    let _ = decisions.add_forwarded(1_000);
    assert_eq!(decisions.get_decision(2), Err("too old, oldest: 937, asking: 2".to_string()));
    assert_eq!(
        EntityTooOld { oldest: 0, asking: u64::MAX }.to_text(),
        "too old, oldest: 0, asking: 18446744073709551615"
    );
}

#[test]
fn targets_without_an_indication_do_not_match() {
    let target = DependencyDescriptorDecodeTargetLite { target: 3, spatial: 0, temporal: 0 };
    let frame = FrameDependencyTemplateLite {
        decode_target_indications: vec![DecodeTargetIndicationLite::Required],
        chain_diffs: vec![],
    };
    assert_eq!(
        DecodeTarget::new(target, None).on_frame(&[], &frame),
        Err("mismatch target 3 and len(DecodeTargetIndications) 1".to_string())
    );
    assert_eq!(
        TargetMismatch { target: 1_020, indications: 10 }.to_text(),
        "mismatch target 1020 and len(DecodeTargetIndications) 10"
    );
}

#[test]
fn delta_frames_do_not_switch() {
    let mut selector = SimulcastSelectorLite::new();
    selector.set_target(VideoLayerLite { spatial: 1, temporal: 0 });
    let delta = SimulcastFrameLite {
        is_key_frame: false,
        video_layer: VideoLayerLite { spatial: 1, temporal: 0 },
    };
    assert!(!selector.select(delta, 1).is_switching);
    assert!(!selector.get_current().is_valid());
}
