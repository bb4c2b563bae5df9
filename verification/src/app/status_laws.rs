//! What the status line says of an edit.

use vstd::prelude::*;

#[allow(unused_imports)]
use crate::app::laws::law_toggle_twice_restores;
#[allow(unused_imports)]
use crate::app::model::{AppModel, InputTarget};
#[allow(unused_imports)]
use crate::ebml::laws::readable;
#[allow(unused_imports)]
use crate::ebml::track_type::type_label;
#[allow(unused_imports)]
use crate::mkv::track::TrackModel;
#[allow(unused_imports)]
use crate::text::{decimal, trimmed};

verus! {

/// Whether `flag`, that is an element of a track, is set in the track, and its name.
pub open spec fn reads(t: TrackModel, flag: u64, set: bool, name: Seq<char>) -> bool {
    ||| flag == 0x88 && set == t.default.value && name == "default"@
    ||| flag == 0xB9 && set == t.enabled.value && name == "enabled"@
    ||| flag == 0x55AA && set == t.forced.value && name == "forced"@
    ||| flag == 0x55AB && set == t.hearing_impaired.value && name == "hearing impaired"@
    ||| flag == 0x55AC && set == t.visual_impaired.value && name == "visual impaired"@
    ||| flag == 0x55AD && set == t.text_descriptions.value && name == "text descriptions"@
    ||| flag == 0x55AE && set == t.original.value && name == "original"@
    ||| flag == 0x55AF && set == t.commentary.value && name == "commentary"@
}

/// Once a flag was turned over, the status says of the selected track which flag
/// it was and whether it is set now.
pub proof fn law_status_says_the_new_flag(app: AppModel, flag: u64, set: bool, name: Seq<char>)
    requires
        app.selected() is Some,
        readable(app.current()->0.tracks),
        reads(app.toggled(flag).selected()->0, flag, set, name),
    ensures
        ({
            let next = app.toggled(flag);
            &&& next.status == "track "@ + decimal((app.selected()->0).number as nat) + ": "@ + name + " "@ + (if set {
                "on"@
            } else {
                "off"@
            })
            &&& !next.status_error
        }),
{
    law_toggle_twice_restores(app, flag);
}

/// Once a track was made the default of its type, or is no longer, the status
/// says so of that track.
pub proof fn law_status_says_the_default(app: AppModel)
    requires
        app.selected() is Some,
    ensures
        ({
            let t = app.selected()->0;
            let made = app.made_default();
            let cleared = app.cleared_default();
            &&& made.status == "track "@ + decimal(t.number as nat) + " is now the default "@ + type_label(t.ttype)
                + " track"@
            &&& cleared.status == "track "@ + decimal(t.number as nat) + " is no longer a default track"@
            &&& !made.status_error && !cleared.status_error
        }),
{
}

/// Once a text was entered, the status says what was set, or removed, or why it was
/// not; only an empty language is an error. A tag that went with the old language
/// is told of.
pub proof fn law_status_says_the_text(app: AppModel)
    requires
        app.input is Some,
        app.selected() is Some,
    ensures
        ({
            let t = app.selected()->0;
            let e = app.current()->0.tracks.children()[t.index as int];
            let text = trimmed((app.input->0).value);
            let next = app.input_committed();
            let of = "track "@ + decimal(t.number as nat);
            &&& next.status_error <==> (app.input->0).target == InputTarget::Language && text.len() == 0
            &&& (app.input->0).target == InputTarget::Name && text.len() == 0 ==> next.status == of + ": name removed"@
            &&& (app.input->0).target == InputTarget::Name && text.len() > 0 ==> next.status == of + ": name set to "@
                + text
            &&& (app.input->0).target == InputTarget::Language && text.len() == 0 ==> next.status
                == "language cannot be empty"@
            &&& (app.input->0).target == InputTarget::Language && text.len() > 0 && !e.has(0x22B59D) ==> next.status
                == of + ": language set to "@ + text
            &&& (app.input->0).target == InputTarget::Language && text.len() > 0 && e.has(0x22B59D) ==> next.status
                == of + ": language set to "@ + text + ", BCP-47 tag removed"@
        }),
{
    let closed = AppModel { input: None, ..app };
    assert(closed.selected() == app.selected());
    let text = trimmed((app.input->0).value);
    let of = "track "@ + decimal((app.selected()->0).number as nat);
    assert(of + ": language set to "@ + text + Seq::<char>::empty() =~= of + ": language set to "@ + text);
}

/// The line for a text begins with what the track has, and says what is asked for.
pub proof fn law_prompts(app: AppModel)
    requires
        app.selected() is Some,
    ensures
        ({
            let t = app.selected()->0;
            let name = app.input_started(InputTarget::Name).input->0;
            let language = app.input_started(InputTarget::Language).input->0;
            &&& name.target == InputTarget::Name && name.prompt == "Track name (empty removes it)"@
            &&& t.name is Some ==> name.value == t.name->0
            &&& t.name is None ==> name.value.len() == 0
            &&& language.target == InputTarget::Language && language.prompt
                == "Language, ISO 639-2 such as eng or jpn"@
            &&& language.value == t.language
        }),
{
}

} // verus!
