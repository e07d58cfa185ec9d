//! Render settings gathered from the command line.
//!
//! The command-line parsing itself happens outside the library; this module
//! holds the decision logic: which defaults apply when a parameter is absent,
//! and that a missing scene path refuses the whole configuration.

use vstd::prelude::*;

verus! {

/// The resolved render configuration.
pub struct Settings {
    pub width: u32,
    pub height: u32,
    pub samples: u32,
    pub export_path: String,
    pub scene_path: String,
    pub threads: u32,
}

impl Settings {
    /// Builds the settings from the optional command-line parameters.
    /// Every parameter but the scene path has a default; a missing scene
    /// path refuses the configuration.
    pub fn from_commandline(
        width: Option<u32>,
        height: Option<u32>,
        samples: Option<u32>,
        output: Option<String>,
        scene: Option<String>,
        threads: Option<u32>,
    ) -> (r: Option<Settings>)
        ensures
            r is Some <==> scene is Some,
            r matches Some(s) ==> {
                &&& s.width == if width is Some { width->0 } else { 200u32 }
                &&& s.height == if height is Some { height->0 } else { 100u32 }
                &&& s.samples == if samples is Some { samples->0 } else { 100u32 }
                &&& s.export_path@ == if output is Some { output->0@ } else { "output.png"@ }
                &&& s.scene_path@ == scene->0@
                &&& s.threads == if threads is Some { threads->0 } else { 4u32 }
            },
    {
        let scene_path = match scene {
            Some(path) => path,
            None => {
                return None;
            },
        };

        let export_path = match output {
            Some(path) => path,
            None => "output.png".to_string(),
        };

        Some(Settings {
            width: width.unwrap_or(200),
            height: height.unwrap_or(100),
            samples: samples.unwrap_or(100),
            export_path,
            scene_path,
            threads: threads.unwrap_or(4),
        })
    }

    pub fn width(&self) -> (r: u32)
        ensures
            r == self.width,
    {
        self.width
    }

    pub fn height(&self) -> (r: u32)
        ensures
            r == self.height,
    {
        self.height
    }

    pub fn samples(&self) -> (r: u32)
        ensures
            r == self.samples,
    {
        self.samples
    }

    pub fn export_path(&self) -> (r: &String)
        ensures
            r == &self.export_path,
    {
        &self.export_path
    }

    pub fn scene_path(&self) -> (r: &String)
        ensures
            r == &self.scene_path,
    {
        &self.scene_path
    }

    pub fn threads(&self) -> (r: u32)
        ensures
            r == self.threads,
    {
        self.threads
    }
}

} // verus!
