use ascii_chat::camera_list::{choose_camera, list_video_devices, CameraListError};

const LISTING: &str = "[dshow @ 000002600bd5f2c0] DirectShow video devices\n\
[dshow @ 000002600bd5f2c0] \"OBS Virtual Camera\" (video)\n\
[dshow @ 000002600bd5f2c0] \"USB2.0 HD UVC WebCam\" (video)\n\
[dshow @ 000002600bd5f2c0] \"Microphone (Realtek)\" (audio)\n";

#[test]
fn video_devices_are_listed_in_order() {
    let names = list_video_devices(LISTING).unwrap();
    assert_eq!(names, vec!["OBS Virtual Camera".to_string(), "USB2.0 HD UVC WebCam".to_string()]);
}

#[test]
fn a_listing_without_video_devices_is_an_error() {
    let r = list_video_devices("[dshow @ 1] \"Mic\" (audio)\n");
    assert_eq!(r.err(), Some(CameraListError::NoDevices));
}

#[test]
fn the_first_physical_camera_is_chosen() {
    let names = list_video_devices(LISTING).unwrap();
    assert_eq!(choose_camera(&names), "USB2.0 HD UVC WebCam");
    let only_virtual = vec!["OBS Virtual Camera".to_string()];
    assert_eq!(choose_camera(&only_virtual), "default");
    assert_eq!(choose_camera(&vec![]), "default");
    let virt = vec!["Virtua".to_string()];
    assert_eq!(choose_camera(&virt), "Virtua");
}
