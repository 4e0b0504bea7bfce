//! The configuration of a run and the small enumerations it is made of.

use vstd::prelude::*;

verus! {

/// How images of different widths are brought onto one canvas.
#[derive(Clone, Copy, Debug, PartialEq, Eq, Structural)]
pub enum WidthMode {
    /// Every image keeps its width; the canvas restarts when the width changes.
    NoEnforcement,
    /// Every image is scaled to the width of the first one.
    AutoUniform,
    /// Every image is scaled to the narrowest width of the folder.
    MatchMin,
    /// Every image is scaled to the configured width.
    Custom,
    /// The canvas is as wide as the widest image; narrower ones are centred.
    MatchMax,
}

/// How the row of a cut is chosen.
#[derive(Clone, Copy, Debug, PartialEq, Eq, Structural)]
pub enum DetectorType {
    /// Look for a uniform row near the target line.
    Smart,
    /// Cut at the target line.
    DirectSplit,
}

/// The colour of canvas area that no image covers.
#[derive(Clone, Copy, Debug, PartialEq, Eq, Structural)]
pub enum FillColor {
    Black,
    White,
}

impl WidthMode {
    /// The mode that a stored code stands for.
    pub open spec fn of_code(code: u8) -> WidthMode {
        if code == 0 {
            WidthMode::NoEnforcement
        } else if code == 2 {
            WidthMode::MatchMin
        } else if code == 3 {
            WidthMode::Custom
        } else if code == 4 {
            WidthMode::MatchMax
        } else {
            WidthMode::AutoUniform
        }
    }

    /// Reads a stored code; a code that names no mode means `AutoUniform`.
    pub fn from_code(code: u8) -> (mode: WidthMode)
        ensures
            mode == WidthMode::of_code(code),
    {
        match code {
            0 => WidthMode::NoEnforcement,
            2 => WidthMode::MatchMin,
            3 => WidthMode::Custom,
            4 => WidthMode::MatchMax,
            _ => WidthMode::AutoUniform,
        }
    }

    /// The code under which the mode is stored.
    pub fn code(self) -> (code: u8)
        ensures
            code <= 4,
            WidthMode::of_code(code) == self,
    {
        match self {
            WidthMode::NoEnforcement => 0,
            WidthMode::AutoUniform => 1,
            WidthMode::MatchMin => 2,
            WidthMode::Custom => 3,
            WidthMode::MatchMax => 4,
        }
    }
}

impl DetectorType {
    /// The detector that a stored code stands for.
    pub open spec fn of_code(code: u8) -> DetectorType {
        if code == 1 {
            DetectorType::DirectSplit
        } else {
            DetectorType::Smart
        }
    }

    /// Reads a stored code; only 1 means `DirectSplit`.
    pub fn from_code(code: u8) -> (detector: DetectorType)
        ensures
            detector == DetectorType::of_code(code),
    {
        if code == 1 {
            DetectorType::DirectSplit
        } else {
            DetectorType::Smart
        }
    }

    /// The code under which the detector is stored.
    pub fn code(self) -> (code: u8)
        ensures
            code <= 1,
            DetectorType::of_code(code) == self,
    {
        match self {
            DetectorType::Smart => 0,
            DetectorType::DirectSplit => 1,
        }
    }
}

impl FillColor {
    /// The colour that a stored code stands for.
    pub open spec fn of_code(code: u8) -> FillColor {
        if code == 1 {
            FillColor::White
        } else {
            FillColor::Black
        }
    }

    /// Reads a stored code; only 1 means `White`.
    pub fn from_code(code: u8) -> (color: FillColor)
        ensures
            color == FillColor::of_code(code),
    {
        if code == 1 {
            FillColor::White
        } else {
            FillColor::Black
        }
    }

    /// The code under which the colour is stored.
    pub fn code(self) -> (code: u8)
        ensures
            code <= 1,
            FillColor::of_code(code) == self,
    {
        match self {
            FillColor::Black => 0,
            FillColor::White => 1,
        }
    }

    /// The value of each of the three colour channels.
    pub open spec fn level(self) -> u8 {
        match self {
            FillColor::Black => 0u8,
            FillColor::White => 255u8,
        }
    }

    /// The four bytes of one pixel of this colour; it is opaque.
    pub fn rgba(self) -> (px: [u8; 4])
        ensures
            px[0] == self.level(),
            px[1] == self.level(),
            px[2] == self.level(),
            px[3] == 255,
    {
        match self {
            FillColor::Black => [0, 0, 0, 255],
            FillColor::White => [255, 255, 255, 255],
        }
    }
}

/// Everything one run is told: where to read and write, how to cut, how to
/// reconcile widths, and what to run afterwards.
#[derive(Debug)]
pub struct StitchSettings {
    pub input_path: String,
    pub output_path: String,
    pub output_type: String,
    pub split_height: u32,
    pub width_enforce_type: u8,
    pub custom_width: u32,
    pub sensitivity: u8,
    pub scan_step: u32,
    pub ignorable_margin: u32,
    pub batch_mode: bool,
    pub detector_type: u8,
    pub fill_color: u8,
    pub enable_post_process: bool,
    pub post_process_path: String,
    pub post_process_args: String,
}

/// Why a configuration cannot be used for a run.
#[derive(Clone, Copy, Debug, PartialEq, Eq, Structural)]
pub enum ConfigError {
    /// The split height is zero.
    ZeroSplitHeight,
    /// The sensitivity is above 100.
    SensitivityOutOfRange,
    /// The scan step of the smart detector is zero, so its search would
    /// never move.
    ZeroScanStep,
}

/// Why an image cannot be taken onto the canvas.
#[derive(Clone, Copy, Debug, PartialEq, Eq, Structural)]
pub enum StitchError {
    /// The image, or what it would become, is too large to be scaled to the
    /// canvas width.
    ImageTooLarge,
    /// Canvas and image together have more rows than a height can count.
    CanvasTooTall,
}

/// Why the images of a folder could not be made into pages.
#[derive(Clone, Copy, Debug, PartialEq, Eq, Structural)]
pub enum RunError {
    /// The configuration is not valid.
    Config(ConfigError),
    /// The image with this index, counted from 0, could not be taken on.
    Image(usize, StitchError),
}

impl StitchSettings {
    /// A configuration that a run accepts: a positive split height, a
    /// sensitivity of at most 100 and, for the smart detector, a positive
    /// scan step.
    pub open spec fn valid(&self) -> bool {
        &&& self.split_height > 0
        &&& self.sensitivity <= 100
        &&& self.detector_spec() == DetectorType::Smart ==> self.scan_step > 0
    }

    /// The first rule that the configuration breaks, if it breaks one.
    pub open spec fn defect(&self) -> Option<ConfigError> {
        if self.split_height == 0 {
            Some(ConfigError::ZeroSplitHeight)
        } else if self.sensitivity > 100 {
            Some(ConfigError::SensitivityOutOfRange)
        } else if self.detector_spec() == DetectorType::Smart && self.scan_step == 0 {
            Some(ConfigError::ZeroScanStep)
        } else {
            None
        }
    }

    /// Accepts the configuration or names the first rule it breaks.
    pub fn validate(&self) -> (r: Result<(), ConfigError>)
        ensures
            r is Ok <==> self.valid(),
            r is Err ==> self.defect() == Some(r->Err_0),
    {
        if self.split_height == 0 {
            Err(ConfigError::ZeroSplitHeight)
        } else if self.sensitivity > 100 {
            Err(ConfigError::SensitivityOutOfRange)
        } else if self.detector_type != 1 && self.scan_step == 0 {
            Err(ConfigError::ZeroScanStep)
        } else {
            Ok(())
        }
    }

    pub open spec fn width_mode_spec(&self) -> WidthMode {
        WidthMode::of_code(self.width_enforce_type)
    }

    pub open spec fn detector_spec(&self) -> DetectorType {
        DetectorType::of_code(self.detector_type)
    }

    pub open spec fn fill_spec(&self) -> FillColor {
        FillColor::of_code(self.fill_color)
    }

    /// The width mode that the stored code selects.
    #[verifier::when_used_as_spec(width_mode_spec)]
    pub fn width_mode(&self) -> (mode: WidthMode)
        ensures
            mode == self.width_mode_spec(),
    {
        WidthMode::from_code(self.width_enforce_type)
    }

    /// The detector that the stored code selects.
    #[verifier::when_used_as_spec(detector_spec)]
    pub fn detector(&self) -> (detector: DetectorType)
        ensures
            detector == self.detector_spec(),
    {
        DetectorType::from_code(self.detector_type)
    }

    /// The fill colour that the stored code selects.
    #[verifier::when_used_as_spec(fill_spec)]
    pub fn fill(&self) -> (color: FillColor)
        ensures
            color == self.fill_spec(),
    {
        FillColor::from_code(self.fill_color)
    }

    /// The configuration that a new installation starts with: pages of 5000
    /// rows as `.png`, widths made uniform, the smart detector at
    /// sensitivity 90 with a step and a margin of 5, black fill, nothing run
    /// afterwards.
    pub open spec fn is_default(&self) -> bool {
        &&& self.input_path@ == Seq::<char>::empty()
        &&& self.output_path@ == Seq::<char>::empty()
        &&& self.output_type@ == ".png"@
        &&& self.split_height == 5000
        &&& self.width_enforce_type == 1
        &&& self.custom_width == 720
        &&& self.sensitivity == 90
        &&& self.scan_step == 5
        &&& self.ignorable_margin == 5
        &&& !self.batch_mode
        &&& self.detector_type == 0
        &&& self.fill_color == 0
        &&& !self.enable_post_process
        &&& self.post_process_path@ == Seq::<char>::empty()
        &&& self.post_process_args@ == Seq::<char>::empty()
    }

    /// True when a command is to be run after each folder: the switch is on
    /// and an executable is named.
    pub fn wants_post_process(&self) -> (wanted: bool)
        ensures
            wanted == (self.enable_post_process && self.post_process_path@.len() > 0),
    {
        self.enable_post_process && self.post_process_path.as_str().unicode_len() > 0
    }
}

impl Clone for StitchSettings {
    fn clone(&self) -> (copy: Self)
        ensures
            copy == *self,
    {
        StitchSettings {
            input_path: self.input_path.clone(),
            output_path: self.output_path.clone(),
            output_type: self.output_type.clone(),
            split_height: self.split_height,
            width_enforce_type: self.width_enforce_type,
            custom_width: self.custom_width,
            sensitivity: self.sensitivity,
            scan_step: self.scan_step,
            ignorable_margin: self.ignorable_margin,
            batch_mode: self.batch_mode,
            detector_type: self.detector_type,
            fill_color: self.fill_color,
            enable_post_process: self.enable_post_process,
            post_process_path: self.post_process_path.clone(),
            post_process_args: self.post_process_args.clone(),
        }
    }
}

impl Default for StitchSettings {
    /// The configuration that a new installation starts with.
    fn default() -> (s: Self)
        ensures
            s.is_default(),
            s.valid(),
    {
        StitchSettings {
            input_path: String::new(),
            output_path: String::new(),
            output_type: ".png".to_owned(),
            split_height: 5000,
            width_enforce_type: 1,
            custom_width: 720,
            sensitivity: 90,
            scan_step: 5,
            ignorable_margin: 5,
            batch_mode: false,
            detector_type: 0,
            fill_color: 0,
            enable_post_process: false,
            post_process_path: String::new(),
            post_process_args: String::new(),
        }
    }
}

} // verus!
