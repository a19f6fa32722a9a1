use ptsession::content_description::ContentType;

#[test]
fn tags_of_the_catalogue() {
    assert_eq!(ContentType::INFO_Version.code(), 0x0003);
    assert_eq!(ContentType::WAV_SampleRate_Size.code(), 0x1001);
    assert_eq!(ContentType::WAV_Metadata.code(), 0x1003);
    assert_eq!(ContentType::WAV_List_Full.code(), 0x1004);
    assert_eq!(ContentType::AUDIO_Region_Name_Number_v5.code(), 0x1008);
    assert_eq!(ContentType::AUDIO_Region_List_v5.code(), 0x100b);
    assert_eq!(ContentType::AUDIO_Region_Track_Full_Map.code(), 0x1012);
    assert_eq!(ContentType::AUDIO_Track_Name_Number.code(), 0x1014);
    assert_eq!(ContentType::AUDIO_Tracks.code(), 0x1015);
    assert_eq!(ContentType::INFO_SampleRate.code(), 0x1028);
    assert_eq!(ContentType::WAV_Names.code(), 0x103a);
    assert_eq!(ContentType::AUDIO_Region_Track_SubEntry_v8.code(), 0x104f);
    assert_eq!(ContentType::AUDIO_Region_Track_Entry_v8.code(), 0x1050);
    assert_eq!(ContentType::AUDIO_Region_Track_Full_Map_v8.code(), 0x1054);
    assert_eq!(ContentType::MARKER_List_Full.code(), 0x2030);
    assert_eq!(ContentType::INFO_Path_of_Session.code(), 0x2067);
    assert_eq!(ContentType::MARKER_List_Entry.code(), 0x2077);
    assert_eq!(ContentType::AUDIO_Region_Name_Number_v10.code(), 0x2629);
    assert_eq!(ContentType::AUDIO_Region_List_v10.code(), 0x262a);
    assert_eq!(ContentType::MARKER_List.code(), 0x271a);
}

#[test]
fn every_tag_leads_back_to_its_content_type() {
    let mut known: u32 = 0;
    for code in 0..=u16::MAX {
        if let Some(kind) = ContentType::from_code(code) {
            assert_eq!(kind.code(), code);
            known += 1;
        }
    }
    assert_eq!(known, 46);
}

#[test]
fn unknown_tags_have_no_content_type() {
    assert_eq!(ContentType::from_code(0x1052), None);
    assert_eq!(ContentType::from_code(0xffff), None);
    assert_eq!(ContentType::from_code(0x0001), None);
    assert_eq!(ContentType::from_code(0x0000), Some(ContentType::DUMMY));
}
