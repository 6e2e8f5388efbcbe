//! Where Steam keeps its user data, and where pictures are cached.

use vstd::prelude::*;
use vstd::string::*;

use crate::path::{path_of, FsPath, PathView, Platform};
use crate::roots::{first_present, pick_present};

verus! {

/// The directories in which Steam's user data may be, the likeliest first. On
/// Windows these are the one below the directory in which Steam says that it
/// is installed, and the usual ones; elsewhere the usual ones below the home
/// directory.
pub open spec fn userdata_places_of(
    platform: Platform,
    install_dir: Option<PathView>,
    home: Option<PathView>,
) -> Seq<PathView> {
    match platform {
        Platform::Windows => {
            let usual = seq![
                PathView {
                    platform,
                    root: "C:\\"@,
                    body: "Program Files (x86)\\Steam\\userdata"@,
                },
                PathView { platform, root: "C:\\"@, body: "Program Files\\Steam\\userdata"@ },
            ];
            match install_dir {
                Some(dir) => seq![dir.below("userdata"@)] + usual,
                None => usual,
            }
        },
        Platform::Other => match home {
            Some(dir) => seq![
                dir.below(".steam/steam/userdata"@),
                dir.below(".local/share/Steam/userdata"@),
                dir.below(".steam/debian-installation/userdata"@),
            ],
            None => Seq::empty(),
        },
    }
}

/// The directories in which Steam's user data may be, the likeliest first.
pub fn userdata_places(
    platform: Platform,
    install_dir: &Option<FsPath>,
    home: &Option<FsPath>,
) -> (r: Vec<FsPath>)
    ensures
        r.deep_view() == userdata_places_of(
            platform,
            install_dir.deep_view(),
            home.deep_view(),
        ),
{
    let mut r: Vec<FsPath> = Vec::new();
    match platform {
        Platform::Windows => {
            if let Some(dir) = install_dir {
                r.push(dir.below("userdata"));
            }
            r.push(path_of(platform, "C:\\", "Program Files (x86)\\Steam\\userdata"));
            r.push(path_of(platform, "C:\\", "Program Files\\Steam\\userdata"));
        },
        Platform::Other => {
            if let Some(dir) = home {
                r.push(dir.below(".steam/steam/userdata"));
                r.push(dir.below(".local/share/Steam/userdata"));
                r.push(dir.below(".steam/debian-installation/userdata"));
            }
        },
    }
    assert(r.deep_view() =~= userdata_places_of(
        platform,
        install_dir.deep_view(),
        home.deep_view(),
    ));
    r
}

/// Whether what was seen at a place is taken for the user data.
pub open spec fn is_userdata(platform: Platform, exists: bool, is_dir: bool) -> bool {
    exists && (platform == Platform::Windows || is_dir)
}

/// Whether what was seen at a place is taken for the user data: on Windows
/// anything that exists, elsewhere only a directory.
pub fn holds_userdata(platform: Platform, exists: bool, is_dir: bool) -> (r: bool)
    ensures
        r == (exists && (platform == Platform::Windows || is_dir)),
        r == is_userdata(platform, exists, is_dir),
{
    match platform {
        Platform::Windows => exists,
        Platform::Other => exists && is_dir,
    }
}

/// Where Steam's user data is: the first of the places that holds it, as
/// `present` says for each.
pub fn find_steam_userdata(places: &Vec<FsPath>, present: &Vec<bool>) -> (r: Option<FsPath>)
    requires
        places.len() == present.len(),
    ensures
        r.deep_view() == first_present(places.deep_view(), present@),
{
    pick_present(places, present)
}

/// Where pictures are cached.
pub open spec fn cache_of(platform: Platform, cache: Option<PathView>) -> PathView {
    match cache {
        Some(dir) => dir.below("dota_tools/avatars"@),
        None => (PathView { platform, root: Seq::empty(), body: "."@ }).below(
            "dota_tools/avatars"@,
        ),
    }
}

/// Where pictures are cached: below the user's cache directory, or below the
/// current directory where there is none.
pub fn avatar_cache_dir(platform: Platform, cache: &Option<FsPath>) -> (r: FsPath)
    ensures
        r@ == (match cache.deep_view() {
            Some(dir) => dir,
            None => PathView { platform, root: Seq::empty(), body: "."@ },
        }).below("dota_tools/avatars"@),
        r@ == cache_of(platform, cache.deep_view()),
{
    match cache {
        Some(dir) => dir.below("dota_tools/avatars"),
        None => {
            let here: FsPath = FsPath {
                platform,
                root: String::new(),
                body: ".".to_string(),
            };
            here.below("dota_tools/avatars")
        },
    }
}

} // verus!
