//! The LaunchAgent that starts the app at login.
use vstd::prelude::*;
use vstd::string::*;

verus! {

pub const LABEL: &'static str = "com.luiss0606.clipboard-saver";

pub const PLIST_HEAD: &'static str = "<?xml version=\"1.0\" encoding=\"UTF-8\"?>
<!DOCTYPE plist PUBLIC \"-//Apple//DTD PLIST 1.0//EN\" \"http://www.apple.com/DTDs/PropertyList-1.0.dtd\">
<plist version=\"1.0\">
<dict>
    <key>Label</key>
    <string>";

pub const PLIST_MIDDLE: &'static str = "</string>
    <key>ProgramArguments</key>
    <array>
        <string>";

pub const PLIST_TAIL: &'static str = "</string>
    </array>
    <key>RunAtLoad</key>
    <true/>
</dict>
</plist>
";

/// The LaunchAgent property list that runs `exe` at load, under [`LABEL`].
pub open spec fn plist_text(exe: Seq<char>) -> Seq<char> {
    PLIST_HEAD@ + LABEL@ + PLIST_MIDDLE@ + exe + PLIST_TAIL@
}

/// The plist names the agent by [`LABEL`] and runs `exe`: it opens with
/// the `Label` key's value, [`LABEL`], right after [`PLIST_HEAD`], and the
/// program argument, `exe` itself, stands right after [`PLIST_MIDDLE`].
pub proof fn lemma_plist_label_and_program(exe: Seq<char>)
    ensures
        ({
            let text = plist_text(exe);
            let label_at = PLIST_HEAD@.len() as int;
            let exe_at = label_at + LABEL@.len() + PLIST_MIDDLE@.len();
            &&& text.take(label_at + LABEL@.len()) == PLIST_HEAD@ + LABEL@
            &&& text.subrange(label_at, label_at + LABEL@.len()) == LABEL@
            &&& text.take(exe_at) == PLIST_HEAD@ + LABEL@ + PLIST_MIDDLE@
            &&& text.subrange(exe_at, exe_at + exe.len()) == exe
            &&& text.skip(exe_at + exe.len()) == PLIST_TAIL@
        }),
{
    let text = plist_text(exe);
    let label_at = PLIST_HEAD@.len() as int;
    let exe_at = label_at + LABEL@.len() + PLIST_MIDDLE@.len();
    assert(text.take(label_at + LABEL@.len()) =~= PLIST_HEAD@ + LABEL@);
    assert(text.subrange(label_at, label_at + LABEL@.len()) =~= LABEL@);
    assert(text.take(exe_at) =~= PLIST_HEAD@ + LABEL@ + PLIST_MIDDLE@);
    assert(text.subrange(exe_at, exe_at + exe.len()) =~= exe);
    assert(text.skip(exe_at + exe.len()) =~= PLIST_TAIL@);
}

/// The LaunchAgent plist pointing at the executable `exe`. It is only
/// written by the host, not bootstrapped: RunAtLoad takes effect at the next
/// login.
pub fn launch_agent_plist(exe: &str) -> (r: String)
    ensures
        r@ == plist_text(exe@),
{
    let mut s: String = PLIST_HEAD.to_owned();
    s.append(LABEL);
    s.append(PLIST_MIDDLE);
    s.append(exe);
    s.append(PLIST_TAIL);
    s
}

} // verus!
