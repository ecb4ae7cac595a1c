use vstd::prelude::*;
use vstd::string::*;

verus! {

/// The text of capture group 1 at each successive non-overlapping match of
/// `pattern` in `text`, in order; matches where the group takes no part give
/// nothing.
pub uninterp spec fn group_one_captures(pattern: Seq<char>, text: Seq<char>) -> Seq<Seq<char>>;

/// Relies on `regex::Regex::new` (which fails on an invalid or oversized
/// pattern) and on `Regex::captures_iter` with `Captures::get(1)`: the
/// group-1 text of every match, in order.
#[verifier::external_body]
fn regex_group_one(pattern: &str, text: &str) -> (r: Option<Vec<String>>)
    ensures
        r matches Some(v) ==> v@.map_values(|s: String| s@) == group_one_captures(pattern@, text@),
{
    match regex::Regex::new(pattern) {
        Ok(re) => Some(
            re.captures_iter(text).filter_map(|cap| cap.get(1).map(|m| m.as_str().to_owned())).collect(),
        ),
        Err(_) => None,
    }
}

/// A video device line of ffmpeg's DirectShow listing, such as
/// `[dshow @ 0000] "USB2.0 HD UVC WebCam" (video)`; group 1 is the name.
pub const DSHOW_VIDEO_PATTERN: &'static str = "]\\s+\"([^\"]+)\"\\s+\\((video)\\)";

/// Why no camera name was found.
#[derive(PartialEq, Eq, Structural, Clone, Copy, Debug)]
pub enum CameraListError {
    /// The device pattern could not be compiled.
    BadPattern,
    /// The listing names no video device.
    NoDevices,
}

/// The video device names in ffmpeg's DirectShow device listing, in order;
/// fails with `NoDevices` when there are none, and with `BadPattern` when the
/// device pattern could not be compiled.
pub fn list_video_devices(listing: &str) -> (r: Result<Vec<String>, CameraListError>)
    ensures
        r matches Ok(v) ==> v@.map_values(|s: String| s@) == group_one_captures(DSHOW_VIDEO_PATTERN@, listing@)
            && v@.len() > 0,
        r == Err::<Vec<String>, CameraListError>(CameraListError::NoDevices) ==> group_one_captures(
            DSHOW_VIDEO_PATTERN@,
            listing@,
        ).len() == 0,
{
    match regex_group_one(DSHOW_VIDEO_PATTERN, listing) {
        None => Err(CameraListError::BadPattern),
        Some(v) => {
            if v.len() == 0 {
                assert(v@.map_values(|s: String| s@).len() == 0);
                Err(CameraListError::NoDevices)
            } else {
                Ok(v)
            }
        },
    }
}

/// `word` occurs in `s`.
pub open spec fn contains_word(s: Seq<char>, word: Seq<char>) -> bool {
    exists|i: int| 0 <= i && i + word.len() <= s.len() && #[trigger] s.subrange(i, i + word.len()) == word
}

/// The word `Virtual`, which marks a virtual camera.
pub open spec fn virtual_word() -> Seq<char> {
    seq!['V', 'i', 'r', 't', 'u', 'a', 'l']
}

/// The name ffmpeg takes for the default device.
pub open spec fn default_name() -> Seq<char> {
    seq!['d', 'e', 'f', 'a', 'u', 'l', 't']
}

/// Index of the first name without `Virtual` in it, if any.
pub open spec fn first_physical(names: Seq<Seq<char>>) -> Option<int> {
    if exists|i: int| 0 <= i < names.len() && !contains_word(names[i], virtual_word()) {
        Some(
            choose|i: int|
                0 <= i < names.len() && !contains_word(names[i], virtual_word()) && forall|j: int|
                    0 <= j < i ==> contains_word(names[j], virtual_word()),
        )
    } else {
        None
    }
}

fn contains_virtual(s: &str) -> (r: bool)
    ensures
        r == contains_word(s@, virtual_word()),
{
    proof {
        reveal_strlit("Virtual");
    }
    let word = "Virtual";
    assert(word@ =~= virtual_word());
    let n = s.unicode_len();
    let m: usize = 7;
    if n < m {
        proof {
            assert forall|i: int| 0 <= i && i + m <= n implies #[trigger] s@.subrange(i, i + m)
                != virtual_word() by {}
        }
        return false;
    }
    let mut i: usize = 0;
    while i <= n - m
        invariant
            n == s@.len(),
            m == 7,
            m <= n,
            i <= n - m + 1,
            word@ == virtual_word(),
            forall|k: int| 0 <= k < i ==> #[trigger] s@.subrange(k, k + m) != virtual_word(),
        decreases n - i,
    {
        let mut k: usize = 0;
        let mut same = true;
        while k < m
            invariant
                n == s@.len(),
                m == 7,
                i + m <= n,
                k <= m,
                word@ == virtual_word(),
                same == (forall|j: int| 0 <= j < k ==> s@[i + j] == word@[j]),
            decreases m - k,
        {
            if s.get_char(i + k) != word.get_char(k) {
                same = false;
            }
            k = k + 1;
        }
        if same {
            assert(s@.subrange(i as int, i + m) =~= virtual_word());
            return true;
        }
        proof {
            let j = choose|j: int| 0 <= j < m && s@[i + j] != word@[j];
            assert(s@.subrange(i as int, i + m)[j] != virtual_word()[j]);
        }
        i = i + 1;
    }
    false
}

/// The camera to open: the first name without `Virtual` in it, else
/// `default`.
pub fn choose_camera(names: &Vec<String>) -> (r: String)
    ensures
        match first_physical(names@.map_values(|s: String| s@)) {
            Some(i) => r@ == names@[i]@,
            None => r@ == default_name(),
        },
{
    let ghost views = names@.map_values(|s: String| s@);
    let mut i: usize = 0;
    while i < names.len()
        invariant
            views == names@.map_values(|s: String| s@),
            i <= names@.len(),
            forall|j: int| 0 <= j < i ==> contains_word(#[trigger] views[j], virtual_word()),
        decreases names@.len() - i,
    {
        if !contains_virtual(names[i].as_str()) {
            proof {
                assert(views[i as int] == names@[i as int]@);
                let c = choose|c: int|
                    0 <= c < views.len() && !contains_word(views[c], virtual_word()) && forall|j: int|
                        0 <= j < c ==> contains_word(views[j], virtual_word());
                assert(c == i);
            }
            return names[i].clone();
        }
        i = i + 1;
    }
    proof {
        reveal_strlit("default");
    }
    let r = "default".to_owned();
    assert(r@ =~= default_name());
    r
}

} // verus!
