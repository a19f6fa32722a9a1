use vstd::prelude::*;

verus! {

/// The content types that a block of a session file can carry.
#[allow(non_camel_case_types)]
#[derive(Clone, Copy, Debug, PartialEq, Eq, Structural)]
pub enum ContentType {
    DUMMY,
    INFO_Version,
    INFO_Product_and_Version,
    WAV_SampleRate_Size,
    WAV_Metadata,
    WAV_List_Full,
    REGION_Name_Number,
    AUDIO_Region_Name_Number_v5,
    AUDIO_Region_List_v5,
    AUDIO_Region_Track_Entry,
    AUDIO_Region_Track_Map_Entries,
    AUDIO_Region_Track_Full_Map,
    AUDIO_Track_Name_Number,
    AUDIO_Tracks,
    PLUGIN_Entry,
    PLUGIN_Full_List,
    IO_Channel_Entry,
    IO_Channel_List,
    INFO_SampleRate,
    WAV_Names,
    AUDIO_Region_Track_SubEntry_v8,
    AUDIO_Region_Track_Entry_v8,
    AUDIO_Region_Track_Full_Map_v8,
    MIDI_Region_Track_Entry,
    MIDI_Region_Track_Map_Entries,
    MIDI_Region_Track_Full_Map,
    MIDI_Events_Block,
    MIDI_Region_Name_Number_v5,
    MIDI_Regions_Map,
    MARKER_List_Full,
    INFO_Path_of_Session,
    MARKER_List_Entry,
    Snaps_Block,
    MIDI_Track_Full_List,
    MIDI_Track_Name_Number,
    COMPOUND_Region_element,
    IO_Route,
    IO_Routing_Table,
    MARKER_Metadata,
    COMPOUND_Region_Group,
    AUDIO_Region_Name_Number_v10,
    AUDIO_Region_List_v10,
    COMPOUND_Region_Full_Map,
    MIDI_Region_Name_Number_v10,
    MIDI_Regions_Map_v10,
    MARKER_List,
}

impl ContentType {
    /// The 16-bit tag that stands for this content type in a block.
    pub open spec fn tag(self) -> u16 {
        match self {
            ContentType::DUMMY => 0x0000,
            ContentType::INFO_Version => 0x0003,
            ContentType::INFO_Product_and_Version => 0x0030,
            ContentType::WAV_SampleRate_Size => 0x1001,
            ContentType::WAV_Metadata => 0x1003,
            ContentType::WAV_List_Full => 0x1004,
            ContentType::REGION_Name_Number => 0x1007,
            ContentType::AUDIO_Region_Name_Number_v5 => 0x1008,
            ContentType::AUDIO_Region_List_v5 => 0x100b,
            ContentType::AUDIO_Region_Track_Entry => 0x100f,
            ContentType::AUDIO_Region_Track_Map_Entries => 0x1011,
            ContentType::AUDIO_Region_Track_Full_Map => 0x1012,
            ContentType::AUDIO_Track_Name_Number => 0x1014,
            ContentType::AUDIO_Tracks => 0x1015,
            ContentType::PLUGIN_Entry => 0x1017,
            ContentType::PLUGIN_Full_List => 0x1018,
            ContentType::IO_Channel_Entry => 0x1021,
            ContentType::IO_Channel_List => 0x1022,
            ContentType::INFO_SampleRate => 0x1028,
            ContentType::WAV_Names => 0x103a,
            ContentType::AUDIO_Region_Track_SubEntry_v8 => 0x104f,
            ContentType::AUDIO_Region_Track_Entry_v8 => 0x1050,
            ContentType::AUDIO_Region_Track_Full_Map_v8 => 0x1054,
            ContentType::MIDI_Region_Track_Entry => 0x1056,
            ContentType::MIDI_Region_Track_Map_Entries => 0x1057,
            ContentType::MIDI_Region_Track_Full_Map => 0x1058,
            ContentType::MIDI_Events_Block => 0x2000,
            ContentType::MIDI_Region_Name_Number_v5 => 0x2001,
            ContentType::MIDI_Regions_Map => 0x2002,
            ContentType::MARKER_List_Full => 0x2030,
            ContentType::INFO_Path_of_Session => 0x2067,
            ContentType::MARKER_List_Entry => 0x2077,
            ContentType::Snaps_Block => 0x2511,
            ContentType::MIDI_Track_Full_List => 0x2519,
            ContentType::MIDI_Track_Name_Number => 0x251a,
            ContentType::COMPOUND_Region_element => 0x2523,
            ContentType::IO_Route => 0x2602,
            ContentType::IO_Routing_Table => 0x2603,
            ContentType::MARKER_Metadata => 0x2619,
            ContentType::COMPOUND_Region_Group => 0x2628,
            ContentType::AUDIO_Region_Name_Number_v10 => 0x2629,
            ContentType::AUDIO_Region_List_v10 => 0x262a,
            ContentType::COMPOUND_Region_Full_Map => 0x262c,
            ContentType::MIDI_Region_Name_Number_v10 => 0x2633,
            ContentType::MIDI_Regions_Map_v10 => 0x2634,
            ContentType::MARKER_List => 0x271a,
        }
    }

    /// The 16-bit tag that stands for this content type in a block.
    #[verifier::when_used_as_spec(tag)]
    pub fn code(self) -> (code: u16)
        ensures
            code == self.tag(),
    {
        match self {
            ContentType::DUMMY => 0x0000,
            ContentType::INFO_Version => 0x0003,
            ContentType::INFO_Product_and_Version => 0x0030,
            ContentType::WAV_SampleRate_Size => 0x1001,
            ContentType::WAV_Metadata => 0x1003,
            ContentType::WAV_List_Full => 0x1004,
            ContentType::REGION_Name_Number => 0x1007,
            ContentType::AUDIO_Region_Name_Number_v5 => 0x1008,
            ContentType::AUDIO_Region_List_v5 => 0x100b,
            ContentType::AUDIO_Region_Track_Entry => 0x100f,
            ContentType::AUDIO_Region_Track_Map_Entries => 0x1011,
            ContentType::AUDIO_Region_Track_Full_Map => 0x1012,
            ContentType::AUDIO_Track_Name_Number => 0x1014,
            ContentType::AUDIO_Tracks => 0x1015,
            ContentType::PLUGIN_Entry => 0x1017,
            ContentType::PLUGIN_Full_List => 0x1018,
            ContentType::IO_Channel_Entry => 0x1021,
            ContentType::IO_Channel_List => 0x1022,
            ContentType::INFO_SampleRate => 0x1028,
            ContentType::WAV_Names => 0x103a,
            ContentType::AUDIO_Region_Track_SubEntry_v8 => 0x104f,
            ContentType::AUDIO_Region_Track_Entry_v8 => 0x1050,
            ContentType::AUDIO_Region_Track_Full_Map_v8 => 0x1054,
            ContentType::MIDI_Region_Track_Entry => 0x1056,
            ContentType::MIDI_Region_Track_Map_Entries => 0x1057,
            ContentType::MIDI_Region_Track_Full_Map => 0x1058,
            ContentType::MIDI_Events_Block => 0x2000,
            ContentType::MIDI_Region_Name_Number_v5 => 0x2001,
            ContentType::MIDI_Regions_Map => 0x2002,
            ContentType::MARKER_List_Full => 0x2030,
            ContentType::INFO_Path_of_Session => 0x2067,
            ContentType::MARKER_List_Entry => 0x2077,
            ContentType::Snaps_Block => 0x2511,
            ContentType::MIDI_Track_Full_List => 0x2519,
            ContentType::MIDI_Track_Name_Number => 0x251a,
            ContentType::COMPOUND_Region_element => 0x2523,
            ContentType::IO_Route => 0x2602,
            ContentType::IO_Routing_Table => 0x2603,
            ContentType::MARKER_Metadata => 0x2619,
            ContentType::COMPOUND_Region_Group => 0x2628,
            ContentType::AUDIO_Region_Name_Number_v10 => 0x2629,
            ContentType::AUDIO_Region_List_v10 => 0x262a,
            ContentType::COMPOUND_Region_Full_Map => 0x262c,
            ContentType::MIDI_Region_Name_Number_v10 => 0x2633,
            ContentType::MIDI_Regions_Map_v10 => 0x2634,
            ContentType::MARKER_List => 0x271a,
        }
    }

    /// The content type that a tag stands for, if it is one of the catalogue.
    pub fn from_code(code: u16) -> (found: Option<ContentType>)
        ensures
            match found {
                Some(kind) => kind.tag() == code,
                None => forall|kind: ContentType| kind.tag() != code,
            },
    {
        match code {
            0x0000 => Some(ContentType::DUMMY),
            0x0003 => Some(ContentType::INFO_Version),
            0x0030 => Some(ContentType::INFO_Product_and_Version),
            0x1001 => Some(ContentType::WAV_SampleRate_Size),
            0x1003 => Some(ContentType::WAV_Metadata),
            0x1004 => Some(ContentType::WAV_List_Full),
            0x1007 => Some(ContentType::REGION_Name_Number),
            0x1008 => Some(ContentType::AUDIO_Region_Name_Number_v5),
            0x100b => Some(ContentType::AUDIO_Region_List_v5),
            0x100f => Some(ContentType::AUDIO_Region_Track_Entry),
            0x1011 => Some(ContentType::AUDIO_Region_Track_Map_Entries),
            0x1012 => Some(ContentType::AUDIO_Region_Track_Full_Map),
            0x1014 => Some(ContentType::AUDIO_Track_Name_Number),
            0x1015 => Some(ContentType::AUDIO_Tracks),
            0x1017 => Some(ContentType::PLUGIN_Entry),
            0x1018 => Some(ContentType::PLUGIN_Full_List),
            0x1021 => Some(ContentType::IO_Channel_Entry),
            0x1022 => Some(ContentType::IO_Channel_List),
            0x1028 => Some(ContentType::INFO_SampleRate),
            0x103a => Some(ContentType::WAV_Names),
            0x104f => Some(ContentType::AUDIO_Region_Track_SubEntry_v8),
            0x1050 => Some(ContentType::AUDIO_Region_Track_Entry_v8),
            0x1054 => Some(ContentType::AUDIO_Region_Track_Full_Map_v8),
            0x1056 => Some(ContentType::MIDI_Region_Track_Entry),
            0x1057 => Some(ContentType::MIDI_Region_Track_Map_Entries),
            0x1058 => Some(ContentType::MIDI_Region_Track_Full_Map),
            0x2000 => Some(ContentType::MIDI_Events_Block),
            0x2001 => Some(ContentType::MIDI_Region_Name_Number_v5),
            0x2002 => Some(ContentType::MIDI_Regions_Map),
            0x2030 => Some(ContentType::MARKER_List_Full),
            0x2067 => Some(ContentType::INFO_Path_of_Session),
            0x2077 => Some(ContentType::MARKER_List_Entry),
            0x2511 => Some(ContentType::Snaps_Block),
            0x2519 => Some(ContentType::MIDI_Track_Full_List),
            0x251a => Some(ContentType::MIDI_Track_Name_Number),
            0x2523 => Some(ContentType::COMPOUND_Region_element),
            0x2602 => Some(ContentType::IO_Route),
            0x2603 => Some(ContentType::IO_Routing_Table),
            0x2619 => Some(ContentType::MARKER_Metadata),
            0x2628 => Some(ContentType::COMPOUND_Region_Group),
            0x2629 => Some(ContentType::AUDIO_Region_Name_Number_v10),
            0x262a => Some(ContentType::AUDIO_Region_List_v10),
            0x262c => Some(ContentType::COMPOUND_Region_Full_Map),
            0x2633 => Some(ContentType::MIDI_Region_Name_Number_v10),
            0x2634 => Some(ContentType::MIDI_Regions_Map_v10),
            0x271a => Some(ContentType::MARKER_List),
            _ => None,
        }
    }
}

/// No two content types share a tag.
pub proof fn lemma_tags_distinct(a: ContentType, b: ContentType)
    requires
        a.tag() == b.tag(),
    ensures
        a == b,
{
}

} // verus!
