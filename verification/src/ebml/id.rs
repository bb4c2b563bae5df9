//! Element IDs, in canonical form: the VINT marker bits are part of the
//! number, the way the ID appears on disk.

use vstd::prelude::*;

verus! {

pub const EBML_HEAD: u64 = 0x1A45_DFA3;
pub const SEGMENT: u64 = 0x1853_8067;

pub const SEEK_HEAD: u64 = 0x114D_9B74;
pub const SEEK: u64 = 0x4DBB;
pub const SEEK_ID: u64 = 0x53AB;
pub const SEEK_POSITION: u64 = 0x53AC;

pub const INFO: u64 = 0x1549_A966;
pub const TIMESTAMP_SCALE: u64 = 0x2AD7B1;
pub const DURATION: u64 = 0x4489;
pub const TITLE: u64 = 0x7BA9;
pub const MUXING_APP: u64 = 0x4D80;
pub const WRITING_APP: u64 = 0x5741;

pub const TRACKS: u64 = 0x1654_AE6B;
pub const TRACK_ENTRY: u64 = 0xAE;
pub const TRACK_NUMBER: u64 = 0xD7;
pub const TRACK_UID: u64 = 0x73C5;
pub const TRACK_TYPE: u64 = 0x83;
pub const FLAG_ENABLED: u64 = 0xB9;
pub const FLAG_DEFAULT: u64 = 0x88;
pub const FLAG_FORCED: u64 = 0x55AA;
pub const FLAG_HEARING_IMPAIRED: u64 = 0x55AB;
pub const FLAG_VISUAL_IMPAIRED: u64 = 0x55AC;
pub const FLAG_TEXT_DESCRIPTIONS: u64 = 0x55AD;
pub const FLAG_ORIGINAL: u64 = 0x55AE;
pub const FLAG_COMMENTARY: u64 = 0x55AF;
pub const FLAG_LACING: u64 = 0x9C;
pub const DEFAULT_DURATION: u64 = 0x23E383;
pub const TRACK_NAME: u64 = 0x536E;
pub const LANGUAGE: u64 = 0x22B59C;
pub const LANGUAGE_BCP47: u64 = 0x22B59D;
pub const CODEC_ID: u64 = 0x86;
pub const CODEC_PRIVATE: u64 = 0x63A2;
pub const CODEC_NAME: u64 = 0x258688;
pub const CODEC_DELAY: u64 = 0x56AA;
pub const SEEK_PRE_ROLL: u64 = 0x56BB;
pub const CONTENT_ENCODINGS: u64 = 0x6D80;

pub const VIDEO: u64 = 0xE0;
pub const PIXEL_WIDTH: u64 = 0xB0;
pub const PIXEL_HEIGHT: u64 = 0xBA;
pub const DISPLAY_WIDTH: u64 = 0x54B0;
pub const DISPLAY_HEIGHT: u64 = 0x54BA;

pub const AUDIO: u64 = 0xE1;
pub const SAMPLING_FREQUENCY: u64 = 0xB5;
pub const OUTPUT_SAMPLING_FREQUENCY: u64 = 0x78B5;
pub const CHANNELS: u64 = 0x9F;
pub const BIT_DEPTH: u64 = 0x6264;

pub const CLUSTER: u64 = 0x1F43_B675;
pub const CLUSTER_TIMESTAMP: u64 = 0xE7;
pub const CLUSTER_POSITION: u64 = 0xA7;
pub const SIMPLE_BLOCK: u64 = 0xA3;
pub const BLOCK_GROUP: u64 = 0xA0;

pub const CUES: u64 = 0x1C53_BB6B;
pub const CUE_POINT: u64 = 0xBB;
pub const CUE_TRACK_POSITIONS: u64 = 0xB7;
pub const CUE_CLUSTER_POSITION: u64 = 0xF1;
pub const CUE_REFERENCE: u64 = 0xDB;

pub const CHAPTERS: u64 = 0x1043_A770;
pub const TAGS: u64 = 0x1254_C367;
pub const ATTACHMENTS: u64 = 0x1941_A469;

pub const VOID: u64 = 0xEC;
pub const CRC32: u64 = 0xBF;

} // verus!
