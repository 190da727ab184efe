//! The qualities of a track that its subscribers want.
use crate::protocol::{
    decode_quality, SettingView, SubscribedCodec, SubscribedCodecView, SubscribedQuality,
    SubscribedQualityUpdate, SubscribedQualityUpdateView, TrackInfo, UpdateTrackSettings,
    VideoQuality,
};
use crate::text::{chars_of, string_of, to_lower, trim};
use crate::text_order::insert_text;
use vstd::prelude::*;

verus! {

/// The quality of a number on the wire. An unknown number stands for the highest quality.
pub open spec fn wanted_quality(quality: i32) -> VideoQuality {
    match crate::protocol::quality_on_wire(quality) {
        Some(quality) => quality,
        None => VideoQuality::High,
    }
}

fn decode_wanted_quality(quality: i32) -> (wanted: VideoQuality)
    ensures
        wanted == wanted_quality(quality),
{
    match decode_quality(quality) {
        Some(quality) => quality,
        None => VideoQuality::High,
    }
}

/// The contents of the settings.
pub open spec fn setting_views(settings: Seq<UpdateTrackSettings>) -> Seq<SettingView> {
    settings.map_values(|setting: UpdateTrackSettings| setting@)
}

/// The greatest quality, by its number on the wire, that a setting which is not disabled wants.
pub open spec fn greatest_quality(settings: Seq<SettingView>) -> Option<VideoQuality>
    decreases settings.len(),
{
    if settings.len() == 0 {
        None
    } else {
        let before = greatest_quality(settings.drop_last());
        let wanted = wanted_quality(settings.last().quality);
        if settings.last().disabled {
            before
        } else if before is Some && before->0.wire_value() > wanted.wire_value() {
            before
        } else {
            Some(wanted)
        }
    }
}

/// The greatest quality that a setting which is not disabled wants, if there is one.
pub fn aggregate_max_quality_from_track_settings(settings: &Vec<UpdateTrackSettings>) -> (quality:
    Option<VideoQuality>)
    ensures
        quality == greatest_quality(setting_views(settings@)),
{
    let ghost views = setting_views(settings@);
    let mut greatest: Option<VideoQuality> = None;
    let mut i: usize = 0;
    assert(views.take(0) =~= Seq::empty());
    while i < settings.len()
        invariant
            i <= settings@.len(),
            views == setting_views(settings@),
            greatest == greatest_quality(views.take(i as int)),
        decreases settings.len() - i,
    {
        let setting: &UpdateTrackSettings = &settings[i];
        if !setting.disabled {
            let wanted: VideoQuality = decode_wanted_quality(setting.quality);
            let keeps: bool = match greatest {
                Some(quality) => quality.to_wire() > wanted.to_wire(),
                None => false,
            };
            if !keeps {
                greatest = Some(wanted);
            }
        }
        i += 1;
        assert(views.take(i as int).drop_last() =~= views.take(i - 1));
        assert(views.take(i as int).last() == setting@);
    }
    assert(views.take(i as int) =~= views);
    greatest
}

/// The aggregate is a quality that a setting which is not disabled wants, and none of them wants
/// more. There is none exactly if all settings are disabled.
pub proof fn law_aggregate_is_greatest(settings: Seq<SettingView>)
    ensures
        greatest_quality(settings) is None <==> forall|i: int|
            0 <= i < settings.len() ==> (#[trigger] settings[i]).disabled,
        forall|i: int|
            0 <= i < settings.len() && !(#[trigger] settings[i]).disabled
                ==> greatest_quality(settings) is Some && wanted_quality(
                settings[i].quality,
            ).wire_value() <= greatest_quality(settings)->0.wire_value(),
        greatest_quality(settings) is Some ==> exists|i: int|
            0 <= i < settings.len() && !(#[trigger] settings[i]).disabled && wanted_quality(
                settings[i].quality,
            ) == greatest_quality(settings)->0,
    decreases settings.len(),
{
    if settings.len() > 0 {
        let fewer = settings.drop_last();
        law_aggregate_is_greatest(fewer);
        assert forall|i: int|
            0 <= i < settings.len() && !(#[trigger] settings[i]).disabled implies greatest_quality(
            settings,
        ) is Some && wanted_quality(settings[i].quality).wire_value() <= greatest_quality(
            settings,
        )->0.wire_value() by {
            if i < fewer.len() {
                assert(fewer[i] == settings[i]);
            }
        }
        if greatest_quality(settings) is None {
            assert forall|i: int| 0 <= i < settings.len() implies (
            #[trigger] settings[i]).disabled by {
                if i < fewer.len() {
                    assert(fewer[i] == settings[i]);
                }
            }
        } else if settings.last().disabled || greatest_quality(settings) == greatest_quality(
            fewer,
        ) && greatest_quality(fewer) is Some {
            let i = choose|i: int|
                0 <= i < fewer.len() && !(#[trigger] fewer[i]).disabled && wanted_quality(
                    fewer[i].quality,
                ) == greatest_quality(fewer)->0;
            assert(settings[i] == fewer[i]);
        } else {
            assert(!settings[settings.len() - 1].disabled);
        }
    }
}

/// The three qualities, each enabled if it is no greater than the greatest that is wanted.
pub open spec fn qualities_up_to(max_quality: Option<VideoQuality>) -> Seq<SubscribedQuality> {
    seq![
        SubscribedQuality {
            quality: 0,
            enabled: max_quality is Some && 0 <= max_quality->0.wire_value(),
        },
        SubscribedQuality {
            quality: 1,
            enabled: max_quality is Some && 1 <= max_quality->0.wire_value(),
        },
        SubscribedQuality {
            quality: 2,
            enabled: max_quality is Some && 2 <= max_quality->0.wire_value(),
        },
    ]
}

/// The codecs of an update: the given ones, or VP8 if there are none.
pub open spec fn update_codecs(codecs: Seq<Seq<char>>) -> Seq<Seq<char>> {
    if codecs.len() == 0 {
        seq!["video/vp8"@]
    } else {
        codecs
    }
}

/// The update of a track: the same qualities for every codec.
pub open spec fn quality_update(
    track_sid: Seq<char>,
    codecs: Seq<Seq<char>>,
    max_quality: Option<VideoQuality>,
) -> SubscribedQualityUpdateView {
    SubscribedQualityUpdateView {
        track_sid,
        subscribed_qualities: qualities_up_to(max_quality),
        subscribed_codecs: update_codecs(codecs).map_values(
            |codec: Seq<char>|
                SubscribedCodecView { codec, qualities: qualities_up_to(max_quality) },
        ),
    }
}

fn subscribed_qualities(max_quality: Option<VideoQuality>) -> (qualities: Vec<SubscribedQuality>)
    ensures
        qualities@ == qualities_up_to(max_quality),
{
    let limit: i32 = match max_quality {
        Some(max_quality) => max_quality.to_wire(),
        None => -1,
    };
    let mut qualities: Vec<SubscribedQuality> = Vec::new();
    qualities.push(SubscribedQuality { quality: 0, enabled: 0 <= limit });
    qualities.push(SubscribedQuality { quality: 1, enabled: 1 <= limit });
    qualities.push(SubscribedQuality { quality: 2, enabled: 2 <= limit });
    assert(qualities@ =~= qualities_up_to(max_quality));
    qualities
}

/// The updates for the tracks of settings: nothing if they are disabled, else all qualities up to
/// the one that is wanted.
pub fn subscribed_quality_updates_from_track_settings(request: &UpdateTrackSettings) -> (updates:
    Vec<SubscribedQualityUpdate>)
    ensures
        updates@.map_values(|update: SubscribedQualityUpdate| update@)
            == request@.track_sids.map_values(
            |track_sid: Seq<char>|
                quality_update(
                    track_sid,
                    seq!["video/vp8"@],
                    if request@.disabled {
                        None
                    } else {
                        Some(wanted_quality(request@.quality))
                    },
                ),
        ),
{
    let max_quality: Option<VideoQuality> = if request.disabled {
        None
    } else {
        Some(decode_wanted_quality(request.quality))
    };
    let mut updates: Vec<SubscribedQualityUpdate> = Vec::new();
    let mut i: usize = 0;
    while i < request.track_sids.len()
        invariant
            i <= request.track_sids@.len(),
            updates@.len() == i,
            forall|j: int|
                0 <= j < i ==> (#[trigger] updates@[j])@ == quality_update(
                    request.track_sids@[j]@,
                    seq!["video/vp8"@],
                    max_quality,
                ),
        decreases request.track_sids.len() - i,
    {
        updates.push(
            subscribed_quality_update_for_track(request.track_sids[i].as_str(), max_quality),
        );
        i += 1;
    }
    assert(updates@.map_values(|update: SubscribedQualityUpdate| update@)
        =~= request@.track_sids.map_values(
        |track_sid: Seq<char>|
            quality_update(
                track_sid,
                seq!["video/vp8"@],
                if request@.disabled {
                    None
                } else {
                    Some(wanted_quality(request@.quality))
                },
            ),
    ));
    updates
}

/// The update of a track with the codec VP8.
pub fn subscribed_quality_update_for_track(
    track_sid: &str,
    max_quality: Option<VideoQuality>,
) -> (update: SubscribedQualityUpdate)
    ensures
        update@ == quality_update(track_sid@, seq!["video/vp8"@], max_quality),
{
    let mut codecs: Vec<String> = Vec::new();
    codecs.push("video/vp8".to_owned());
    assert(crate::text_order::string_views(codecs@) =~= seq!["video/vp8"@]);
    subscribed_quality_update_for_track_with_codecs(track_sid, codecs.as_slice(), max_quality)
}

/// The update of a track: the same qualities for every codec.
pub fn subscribed_quality_update_for_track_with_codecs(
    track_sid: &str,
    codec_mime_types: &[String],
    max_quality: Option<VideoQuality>,
) -> (update: SubscribedQualityUpdate)
    ensures
        update@ == quality_update(
            track_sid@,
            crate::text_order::string_views(codec_mime_types@),
            max_quality,
        ),
{
    let mut subscribed_codecs: Vec<SubscribedCodec> = Vec::new();
    let ghost expected = quality_update(
        track_sid@,
        crate::text_order::string_views(codec_mime_types@),
        max_quality,
    ).subscribed_codecs;
    if codec_mime_types.len() == 0 {
        subscribed_codecs.push(
            SubscribedCodec {
                codec: "video/vp8".to_owned(),
                qualities: subscribed_qualities(max_quality),
            },
        );
    } else {
        let mut i: usize = 0;
        while i < codec_mime_types.len()
            invariant
                i <= codec_mime_types@.len(),
                subscribed_codecs@.len() == i,
                forall|j: int|
                    0 <= j < i ==> (#[trigger] subscribed_codecs@[j])@ == (SubscribedCodecView {
                        codec: codec_mime_types@[j]@,
                        qualities: qualities_up_to(max_quality),
                    }),
            decreases codec_mime_types.len() - i,
        {
            subscribed_codecs.push(
                SubscribedCodec {
                    codec: codec_mime_types[i].clone(),
                    qualities: subscribed_qualities(max_quality),
                },
            );
            i += 1;
        }
    }
    let update = SubscribedQualityUpdate {
        track_sid: track_sid.to_owned(),
        subscribed_qualities: subscribed_qualities(max_quality),
        subscribed_codecs,
    };
    assert(update@.subscribed_codecs =~= expected);
    update
}

/// A quality is wanted for every codec alike, and with it every lesser quality.
pub proof fn law_lesser_qualities_are_enabled(
    track_sid: Seq<char>,
    codecs: Seq<Seq<char>>,
    max_quality: Option<VideoQuality>,
)
    ensures
        ({
            let update = quality_update(track_sid, codecs, max_quality);
            &&& forall|i: int, j: int|
                0 <= i <= j < 3 && (#[trigger] update.subscribed_qualities[j]).enabled ==> (
                #[trigger] update.subscribed_qualities[i]).enabled
            &&& forall|i: int|
                0 <= i < update.subscribed_codecs.len() ==> (
                #[trigger] update.subscribed_codecs[i]).qualities == update.subscribed_qualities
            &&& update.subscribed_codecs.len() > 0
        }),
{
}

/// The mime type without surrounding white space, in lower case.
pub open spec fn normalized(mime_type: Seq<char>) -> Seq<char> {
    crate::text::lowered(crate::text::trimmed(mime_type))
}

/// The mime types of the codecs of a track that are not blank.
pub open spec fn named_codecs(track: TrackInfo) -> Set<Seq<char>> {
    Set::new(
        |mime_type: Seq<char>|
            mime_type.len() > 0 && exists|i: int|
                0 <= i < track.codecs@.len() && normalized(
                    (#[trigger] track.codecs@[i]).mime_type@,
                ) == mime_type,
    )
}

/// The mime types of a track: those of its codecs, or else its own, or else VP8.
pub open spec fn track_codecs(track: TrackInfo) -> Set<Seq<char>> {
    if named_codecs(track) != Set::<Seq<char>>::empty() {
        named_codecs(track)
    } else if normalized(track.mime_type@).len() > 0 {
        set![normalized(track.mime_type@)]
    } else {
        set!["video/vp8"@]
    }
}

fn normalize(mime_type: &String) -> (result: Vec<char>)
    ensures
        result@ == normalized(mime_type@),
{
    let chars: Vec<char> = chars_of(mime_type.as_str());
    let trimmed: Vec<char> = trim(chars.as_slice());
    to_lower(trimmed.as_slice())
}

/// The mime types of a track, in lower case, in order and each once.
pub fn codec_mime_types_for_track(track: &TrackInfo) -> (mime_types: Vec<String>)
    ensures
        crate::text_order::ascending(crate::text_order::string_views(mime_types@)),
        crate::text_order::string_views(mime_types@).to_set() == track_codecs(*track),
{
    let mut mime_types: Vec<String> = Vec::new();
    let mut i: usize = 0;
    assert(crate::text_order::string_views(mime_types@).to_set() =~= Set::empty());
    while i < track.codecs.len()
        invariant
            i <= track.codecs@.len(),
            crate::text_order::ascending(crate::text_order::string_views(mime_types@)),
            forall|mime_type: Seq<char>| #[trigger]
                crate::text_order::string_views(mime_types@).to_set().contains(mime_type)
                    <==> mime_type.len() > 0 && exists|j: int|
                    0 <= j < i && normalized((#[trigger] track.codecs@[j]).mime_type@)
                        == mime_type,
        decreases track.codecs.len() - i,
    {
        let mime_type: Vec<char> = normalize(&track.codecs[i].mime_type);
        let ghost before = crate::text_order::string_views(mime_types@).to_set();
        if mime_type.len() > 0 {
            insert_text(&mut mime_types, string_of(mime_type.as_slice()));
        }
        i += 1;
        proof {
            let after = crate::text_order::string_views(mime_types@).to_set();
            assert forall|text: Seq<char>| #[trigger]
                after.contains(text) <==> text.len() > 0 && exists|j: int|
                    0 <= j < i && normalized((#[trigger] track.codecs@[j]).mime_type@) == text by {
                if text == mime_type@ {
                    assert(normalized(track.codecs@[i - 1].mime_type@) == text);
                }
                if before.contains(text) {
                    let j = choose|j: int|
                        0 <= j < i - 1 && normalized((#[trigger] track.codecs@[j]).mime_type@)
                            == text;
                    assert(normalized(track.codecs@[j].mime_type@) == text);
                }
            }
        }
    }
    assert(crate::text_order::string_views(mime_types@).to_set() =~= named_codecs(*track));
    if mime_types.len() == 0 {
        assert(named_codecs(*track) =~= Set::empty());
        let fallback: Vec<char> = normalize(&track.mime_type);
        if fallback.len() > 0 {
            insert_text(&mut mime_types, string_of(fallback.as_slice()));
        } else {
            insert_text(&mut mime_types, "video/vp8".to_owned());
        }
        assert(crate::text_order::string_views(mime_types@).to_set() =~= track_codecs(*track));
    } else {
        assert(named_codecs(*track).contains(
            crate::text_order::string_views(mime_types@)[0],
        ));
    }
    mime_types
}

/// The numbers 0 to 3 stand for low, medium, high and off, and every other one for high.
pub proof fn law_unknown_quality_is_the_highest(quality: i32)
    ensures
        quality == 0 ==> wanted_quality(quality) == VideoQuality::Low,
        quality == 1 ==> wanted_quality(quality) == VideoQuality::Medium,
        quality == 3 ==> wanted_quality(quality) == VideoQuality::Off,
        quality == 2 || quality < 0 || quality > 3 ==> wanted_quality(quality)
            == VideoQuality::High,
        0 <= quality <= 3 ==> wanted_quality(quality).wire_value() == quality,
{
}

/// An update enables a quality exactly where it is no greater than the one that is wanted, for
/// every codec that is given, in order, or for VP8 where none is.
pub proof fn law_update_enables_up_to_the_greatest(
    track_sid: Seq<char>,
    codecs: Seq<Seq<char>>,
    max_quality: Option<VideoQuality>,
    i: int,
)
    ensures
        ({
            let update = quality_update(track_sid, codecs, max_quality);
            &&& update.track_sid == track_sid
            &&& update.subscribed_qualities.len() == 3
            &&& 0 <= i < 3 ==> update.subscribed_qualities[i].quality == i
            &&& 0 <= i < 3 ==> (update.subscribed_qualities[i].enabled <==> (max_quality matches Some(
                quality,
            ) && quality.wire_value() >= i))
            &&& max_quality is None ==> !update.subscribed_qualities[0].enabled
            &&& codecs.len() > 0 ==> update.subscribed_codecs.len() == codecs.len()
            &&& codecs.len() > 0 && 0 <= i < codecs.len() ==> update.subscribed_codecs[i].codec
                == codecs[i]
            &&& codecs.len() == 0 ==> update.subscribed_codecs.len() == 1
                && update.subscribed_codecs[0].codec == "video/vp8"@
        }),
{
}

/// A mime type is read without the white space around it and without regard to case.
pub proof fn law_mime_types_are_normalized(
    before: Seq<char>,
    mime_type: Seq<char>,
    after: Seq<char>,
)
    requires
        forall|i: int| 0 <= i < before.len() ==> crate::text::is_space(#[trigger] before[i]),
        forall|i: int| 0 <= i < after.len() ==> crate::text::is_space(#[trigger] after[i]),
        mime_type.len() > 0,
        !crate::text::is_space(mime_type[0]),
        !crate::text::is_space(mime_type.last()),
    ensures
        normalized(before + mime_type + after) == crate::text::lowered(mime_type),
{
    crate::text::law_only_outer_space_is_trimmed(before, mime_type, after);
}

/// A track has the mime types of its codecs that are not blank; its own one counts where there is
/// none of those, and VP8 where that is blank too.
pub proof fn law_track_codecs_are_named(track: TrackInfo, i: int)
    requires
        0 <= i < track.codecs@.len(),
    ensures
        normalized(track.codecs@[i].mime_type@).len() > 0 ==> track_codecs(track).contains(
            normalized(track.codecs@[i].mime_type@),
        ),
        (forall|j: int|
            0 <= j < track.codecs@.len() ==> normalized(
                (#[trigger] track.codecs@[j]).mime_type@,
            ).len() == 0) && normalized(track.mime_type@).len() > 0 ==> track_codecs(track) == set![
            normalized(track.mime_type@),
        ],
        (forall|j: int|
            0 <= j < track.codecs@.len() ==> normalized(
                (#[trigger] track.codecs@[j]).mime_type@,
            ).len() == 0) && normalized(track.mime_type@).len() == 0 ==> track_codecs(track)
            == set!["video/vp8"@],
{
    let mime_type = normalized(track.codecs@[i].mime_type@);
    if mime_type.len() > 0 {
        assert(named_codecs(track).contains(mime_type));
    }
    if forall|j: int|
        0 <= j < track.codecs@.len() ==> normalized(
            (#[trigger] track.codecs@[j]).mime_type@,
        ).len() == 0 {
        assert(named_codecs(track) =~= Set::<Seq<char>>::empty());
    }
}

} // verus!
