//! The menus: what each entry stands for.

use crate::color::{Colormap, Orientation};
use crate::filters::BinMode;
use crate::frame::LimitsMode;
use crate::image::Stretch;
use crate::num::Single;
use crate::prefs::{stretch_named, stretch_of};
use crate::session::Lock;
use crate::text::{nat_spec, parse_nat, same_text, string_of, strip_back, trim_back_char};
use vstd::prelude::*;

verus! {

/// The entries of the file menu.
#[derive(Clone, Copy, Debug, PartialEq, Eq, Structural)]
pub enum FileItem {
    Open,
    SavePng,
    SaveFits,
    SaveTiff,
    SaveJpeg,
    SavePostscript,
    HduNavigator,
    NextHdu,
    Print,
    SampImage,
    SampVotable,
    Quit,
}

/// The entries of the view menu.
#[derive(Clone, Copy, Debug, PartialEq, Eq, Structural)]
pub enum ViewItem {
    Panner,
    Magnifier,
    Grid,
    Crosshair,
}

/// The entries of the frame menu.
#[derive(Clone, Copy, Debug, PartialEq, Eq, Structural)]
pub enum FrameItem {
    New,
    Delete,
    Next,
    Previous,
    Match,
    Blink,
    Movie,
    Orient(Orientation),
    Hold(Lock),
    Composite,
    Tile,
    Mosaic,
}

/// The entries of the scale menu.
#[derive(Clone, Copy, Debug, PartialEq, Eq, Structural)]
pub enum ScaleItem {
    Stretched(Stretch),
    Limited(LimitsMode),
}

/// The entries of the bin menu; one that is no number does nothing.
#[derive(Clone, Copy, Debug, PartialEq, Eq, Structural)]
pub enum BinItem {
    Mode(BinMode),
    Factor(u32),
    Nothing,
}

/// The entries of the colour menu; one that names no colour map does nothing.
#[derive(Clone, Copy, Debug, PartialEq, Eq, Structural)]
pub enum ColorItem {
    Load,
    Clear,
    Named(Colormap),
    Nothing,
}

/// The entries of the region menu.
#[derive(Clone, Copy, Debug, PartialEq, Eq, Structural)]
pub enum RegionItem {
    New,
    Load,
    Save,
    Delete,
    DeleteAll,
    Projection,
    Properties,
    Centroid,
    Profile,
    Info,
}

/// The entries of the catalog menu.
#[derive(Clone, Copy, Debug, PartialEq, Eq, Structural)]
pub enum CatalogItem {
    Load,
    Clear,
    Extract,
    Query,
    Info,
}

/// The entries of the analysis menu.
#[derive(Clone, Copy, Debug, PartialEq, Eq, Structural)]
pub enum AnalysisItem {
    CycleSmooth,
    SmoothOff,
    SmoothGaussian,
    SmoothBoxcar,
    SmoothMedian,
    Histogram,
    Contours,
    Statistics,
    PixelTable,
}

/// The entries of the zoom menu; a level that is no number does nothing.
#[derive(Clone, Copy, Debug, PartialEq, Eq, Structural)]
pub enum ZoomItem {
    In,
    Out,
    Fit,
    Reset,
    To(Single),
    Nothing,
}

/// The entries of the edit menu.
#[derive(Clone, Copy, Debug, PartialEq, Eq, Structural)]
pub enum EditItem {
    Crop,
    ResetCrop,
    Preferences,
}

/// What an entry of a menu stands for.
#[derive(Clone, Copy, Debug, PartialEq, Eq, Structural)]
pub enum Command {
    File(FileItem),
    View(ViewItem),
    Frame(FrameItem),
    Scale(ScaleItem),
    Bin(BinItem),
    Color(ColorItem),
    Region(RegionItem),
    Catalog(CatalogItem),
    Analysis(AnalysisItem),
    Zoom(ZoomItem),
    Edit(EditItem),
    About,
    Unknown,
}

/// The entry of the file menu with the given words.
pub open spec fn file_item(t: Seq<char>) -> Option<FileItem> {
    if t == "Open…"@ {
        Some(FileItem::Open)
    } else if t == "Save Image…"@ {
        Some(FileItem::SavePng)
    } else if t == "Save FITS…"@ {
        Some(FileItem::SaveFits)
    } else if t == "Save TIFF…"@ {
        Some(FileItem::SaveTiff)
    } else if t == "Save JPEG…"@ {
        Some(FileItem::SaveJpeg)
    } else if t == "Save PostScript…"@ {
        Some(FileItem::SavePostscript)
    } else if t == "HDU Navigator…"@ {
        Some(FileItem::HduNavigator)
    } else if t == "Next HDU"@ {
        Some(FileItem::NextHdu)
    } else if t == "Print…"@ {
        Some(FileItem::Print)
    } else if t == "SAMP Send Image"@ {
        Some(FileItem::SampImage)
    } else if t == "SAMP Send VOTable…"@ {
        Some(FileItem::SampVotable)
    } else if t == "Quit"@ {
        Some(FileItem::Quit)
    } else {
        None
    }
}

fn file_item_of(t: &Vec<char>) -> (r: Option<FileItem>)
    ensures
        r == file_item(t@),
{
    if same_text(t, "Open…") {
        Some(FileItem::Open)
    } else if same_text(t, "Save Image…") {
        Some(FileItem::SavePng)
    } else if same_text(t, "Save FITS…") {
        Some(FileItem::SaveFits)
    } else if same_text(t, "Save TIFF…") {
        Some(FileItem::SaveTiff)
    } else if same_text(t, "Save JPEG…") {
        Some(FileItem::SaveJpeg)
    } else if same_text(t, "Save PostScript…") {
        Some(FileItem::SavePostscript)
    } else if same_text(t, "HDU Navigator…") {
        Some(FileItem::HduNavigator)
    } else if same_text(t, "Next HDU") {
        Some(FileItem::NextHdu)
    } else if same_text(t, "Print…") {
        Some(FileItem::Print)
    } else if same_text(t, "SAMP Send Image") {
        Some(FileItem::SampImage)
    } else if same_text(t, "SAMP Send VOTable…") {
        Some(FileItem::SampVotable)
    } else if same_text(t, "Quit") {
        Some(FileItem::Quit)
    } else {
        None
    }
}

/// The entry of the view menu with the given words.
pub open spec fn view_item(t: Seq<char>) -> Option<ViewItem> {
    if t == "Panner"@ {
        Some(ViewItem::Panner)
    } else if t == "Magnifier"@ {
        Some(ViewItem::Magnifier)
    } else if t == "Coordinate Grid"@ {
        Some(ViewItem::Grid)
    } else if t == "Crosshair"@ {
        Some(ViewItem::Crosshair)
    } else {
        None
    }
}

fn view_item_of(t: &Vec<char>) -> (r: Option<ViewItem>)
    ensures
        r == view_item(t@),
{
    if same_text(t, "Panner") {
        Some(ViewItem::Panner)
    } else if same_text(t, "Magnifier") {
        Some(ViewItem::Magnifier)
    } else if same_text(t, "Coordinate Grid") {
        Some(ViewItem::Grid)
    } else if same_text(t, "Crosshair") {
        Some(ViewItem::Crosshair)
    } else {
        None
    }
}

/// The entry of the frame menu with the given words.
pub open spec fn frame_item(t: Seq<char>) -> Option<FrameItem> {
    if t == "New Frame"@ {
        Some(FrameItem::New)
    } else if t == "Delete Frame"@ {
        Some(FrameItem::Delete)
    } else if t == "Next"@ {
        Some(FrameItem::Next)
    } else if t == "Previous"@ {
        Some(FrameItem::Previous)
    } else if t == "Match…"@ {
        Some(FrameItem::Match)
    } else if t == "Blink"@ {
        Some(FrameItem::Blink)
    } else if t == "HDU Movie"@ {
        Some(FrameItem::Movie)
    } else if t == "Rotate 180°"@ {
        Some(FrameItem::Orient(Orientation::Rot180))
    } else if t == "Flip Horizontal"@ {
        Some(FrameItem::Orient(Orientation::FlipH))
    } else if t == "Flip Vertical"@ {
        Some(FrameItem::Orient(Orientation::FlipV))
    } else if t == "Reset Orientation"@ {
        Some(FrameItem::Orient(Orientation::Identity))
    } else if t == "Lock Zoom"@ {
        Some(FrameItem::Hold(Lock::Zoom))
    } else if t == "Lock Pan"@ {
        Some(FrameItem::Hold(Lock::Pan))
    } else if t == "Lock Color"@ {
        Some(FrameItem::Hold(Lock::Color))
    } else if t == "Lock Scale"@ {
        Some(FrameItem::Hold(Lock::Scale))
    } else if t == "RGB Composite"@ {
        Some(FrameItem::Composite)
    } else if t == "Tile Frames"@ {
        Some(FrameItem::Tile)
    } else if t == "Mosaic WCS"@ {
        Some(FrameItem::Mosaic)
    } else {
        None
    }
}

fn frame_item_of(t: &Vec<char>) -> (r: Option<FrameItem>)
    ensures
        r == frame_item(t@),
{
    if same_text(t, "New Frame") {
        Some(FrameItem::New)
    } else if same_text(t, "Delete Frame") {
        Some(FrameItem::Delete)
    } else if same_text(t, "Next") {
        Some(FrameItem::Next)
    } else if same_text(t, "Previous") {
        Some(FrameItem::Previous)
    } else if same_text(t, "Match…") {
        Some(FrameItem::Match)
    } else if same_text(t, "Blink") {
        Some(FrameItem::Blink)
    } else if same_text(t, "HDU Movie") {
        Some(FrameItem::Movie)
    } else if same_text(t, "Rotate 180°") {
        Some(FrameItem::Orient(Orientation::Rot180))
    } else if same_text(t, "Flip Horizontal") {
        Some(FrameItem::Orient(Orientation::FlipH))
    } else if same_text(t, "Flip Vertical") {
        Some(FrameItem::Orient(Orientation::FlipV))
    } else if same_text(t, "Reset Orientation") {
        Some(FrameItem::Orient(Orientation::Identity))
    } else if same_text(t, "Lock Zoom") {
        Some(FrameItem::Hold(Lock::Zoom))
    } else if same_text(t, "Lock Pan") {
        Some(FrameItem::Hold(Lock::Pan))
    } else if same_text(t, "Lock Color") {
        Some(FrameItem::Hold(Lock::Color))
    } else if same_text(t, "Lock Scale") {
        Some(FrameItem::Hold(Lock::Scale))
    } else if same_text(t, "RGB Composite") {
        Some(FrameItem::Composite)
    } else if same_text(t, "Tile Frames") {
        Some(FrameItem::Tile)
    } else if same_text(t, "Mosaic WCS") {
        Some(FrameItem::Mosaic)
    } else {
        None
    }
}

/// The entry of the region menu with the given words.
pub open spec fn region_item(t: Seq<char>) -> Option<RegionItem> {
    if t == "New"@ {
        Some(RegionItem::New)
    } else if t == "Load…"@ {
        Some(RegionItem::Load)
    } else if t == "Save…"@ {
        Some(RegionItem::Save)
    } else if t == "Delete Selected"@ {
        Some(RegionItem::Delete)
    } else if t == "Delete All"@ {
        Some(RegionItem::DeleteAll)
    } else if t == "Projection…"@ {
        Some(RegionItem::Projection)
    } else if t == "Properties…"@ {
        Some(RegionItem::Properties)
    } else if t == "Centroid"@ {
        Some(RegionItem::Centroid)
    } else if t == "Radial Profile…"@ {
        Some(RegionItem::Profile)
    } else if t == "Info"@ {
        Some(RegionItem::Info)
    } else {
        None
    }
}

fn region_item_of(t: &Vec<char>) -> (r: Option<RegionItem>)
    ensures
        r == region_item(t@),
{
    if same_text(t, "New") {
        Some(RegionItem::New)
    } else if same_text(t, "Load…") {
        Some(RegionItem::Load)
    } else if same_text(t, "Save…") {
        Some(RegionItem::Save)
    } else if same_text(t, "Delete Selected") {
        Some(RegionItem::Delete)
    } else if same_text(t, "Delete All") {
        Some(RegionItem::DeleteAll)
    } else if same_text(t, "Projection…") {
        Some(RegionItem::Projection)
    } else if same_text(t, "Properties…") {
        Some(RegionItem::Properties)
    } else if same_text(t, "Centroid") {
        Some(RegionItem::Centroid)
    } else if same_text(t, "Radial Profile…") {
        Some(RegionItem::Profile)
    } else if same_text(t, "Info") {
        Some(RegionItem::Info)
    } else {
        None
    }
}

/// The entry of the catalog menu with the given words.
pub open spec fn catalog_item(t: Seq<char>) -> Option<CatalogItem> {
    if t == "Load…"@ {
        Some(CatalogItem::Load)
    } else if t == "Clear"@ {
        Some(CatalogItem::Clear)
    } else if t == "Run SExtractor…"@ {
        Some(CatalogItem::Extract)
    } else if t == "Online Query…"@ {
        Some(CatalogItem::Query)
    } else if t == "Info"@ {
        Some(CatalogItem::Info)
    } else {
        None
    }
}

fn catalog_item_of(t: &Vec<char>) -> (r: Option<CatalogItem>)
    ensures
        r == catalog_item(t@),
{
    if same_text(t, "Load…") {
        Some(CatalogItem::Load)
    } else if same_text(t, "Clear") {
        Some(CatalogItem::Clear)
    } else if same_text(t, "Run SExtractor…") {
        Some(CatalogItem::Extract)
    } else if same_text(t, "Online Query…") {
        Some(CatalogItem::Query)
    } else if same_text(t, "Info") {
        Some(CatalogItem::Info)
    } else {
        None
    }
}

/// The entry of the analysis menu with the given words.
pub open spec fn analysis_item(t: Seq<char>) -> Option<AnalysisItem> {
    if t == "Smooth (cycle)"@ {
        Some(AnalysisItem::CycleSmooth)
    } else if t == "Smooth Off"@ {
        Some(AnalysisItem::SmoothOff)
    } else if t == "Smooth Gaussian"@ {
        Some(AnalysisItem::SmoothGaussian)
    } else if t == "Smooth Boxcar"@ {
        Some(AnalysisItem::SmoothBoxcar)
    } else if t == "Smooth Median"@ {
        Some(AnalysisItem::SmoothMedian)
    } else if t == "Histogram…"@ {
        Some(AnalysisItem::Histogram)
    } else if t == "Contour Levels…"@ {
        Some(AnalysisItem::Contours)
    } else if t == "Statistics…"@ {
        Some(AnalysisItem::Statistics)
    } else if t == "Pixel Table…"@ {
        Some(AnalysisItem::PixelTable)
    } else {
        None
    }
}

fn analysis_item_of(t: &Vec<char>) -> (r: Option<AnalysisItem>)
    ensures
        r == analysis_item(t@),
{
    if same_text(t, "Smooth (cycle)") {
        Some(AnalysisItem::CycleSmooth)
    } else if same_text(t, "Smooth Off") {
        Some(AnalysisItem::SmoothOff)
    } else if same_text(t, "Smooth Gaussian") {
        Some(AnalysisItem::SmoothGaussian)
    } else if same_text(t, "Smooth Boxcar") {
        Some(AnalysisItem::SmoothBoxcar)
    } else if same_text(t, "Smooth Median") {
        Some(AnalysisItem::SmoothMedian)
    } else if same_text(t, "Histogram…") {
        Some(AnalysisItem::Histogram)
    } else if same_text(t, "Contour Levels…") {
        Some(AnalysisItem::Contours)
    } else if same_text(t, "Statistics…") {
        Some(AnalysisItem::Statistics)
    } else if same_text(t, "Pixel Table…") {
        Some(AnalysisItem::PixelTable)
    } else {
        None
    }
}

/// The entry of the edit menu with the given words.
pub open spec fn edit_item(t: Seq<char>) -> Option<EditItem> {
    if t == "Crop to Selected"@ {
        Some(EditItem::Crop)
    } else if t == "Reset Crop"@ {
        Some(EditItem::ResetCrop)
    } else if t == "Preferences…"@ {
        Some(EditItem::Preferences)
    } else {
        None
    }
}

fn edit_item_of(t: &Vec<char>) -> (r: Option<EditItem>)
    ensures
        r == edit_item(t@),
{
    if same_text(t, "Crop to Selected") {
        Some(EditItem::Crop)
    } else if same_text(t, "Reset Crop") {
        Some(EditItem::ResetCrop)
    } else if same_text(t, "Preferences…") {
        Some(EditItem::Preferences)
    } else {
        None
    }
}

/// The entry of the scale menu with the given words.
pub open spec fn scale_item(t: Seq<char>) -> Option<ScaleItem> {
    if t == "minmax"@ {
        Some(ScaleItem::Limited(LimitsMode::MinMax))
    } else if t == "zscale"@ {
        Some(ScaleItem::Limited(LimitsMode::Zscale))
    } else {
        match stretch_named(t) {
            Some(s) => Some(ScaleItem::Stretched(s)),
            None => None,
        }
    }
}

fn scale_item_of(t: &Vec<char>) -> (r: Option<ScaleItem>)
    ensures
        r == scale_item(t@),
{
    if same_text(t, "minmax") {
        Some(ScaleItem::Limited(LimitsMode::MinMax))
    } else if same_text(t, "zscale") {
        Some(ScaleItem::Limited(LimitsMode::Zscale))
    } else {
        match stretch_of(t) {
            Some(s) => Some(ScaleItem::Stretched(s)),
            None => None,
        }
    }
}

/// The entry of the bin menu with the given words.
pub open spec fn bin_item(t: Seq<char>) -> BinItem {
    if t == "Average"@ {
        BinItem::Mode(BinMode::Average)
    } else if t == "Sum"@ {
        BinItem::Mode(BinMode::Sum)
    } else if t == "Sub-sample"@ {
        BinItem::Mode(BinMode::Subsample)
    } else {
        match nat_spec(t) {
            Some(n) if n <= u32::MAX => BinItem::Factor(n as u32),
            _ => BinItem::Nothing,
        }
    }
}

fn bin_item_of(t: &Vec<char>) -> (r: BinItem)
    ensures
        r == bin_item(t@),
{
    if same_text(t, "Average") {
        BinItem::Mode(BinMode::Average)
    } else if same_text(t, "Sum") {
        BinItem::Mode(BinMode::Sum)
    } else if same_text(t, "Sub-sample") {
        BinItem::Mode(BinMode::Subsample)
    } else {
        match parse_nat(t, u32::MAX as u64) {
            Some(n) => BinItem::Factor(n as u32),
            None => BinItem::Nothing,
        }
    }
}

/// The entry of the colour menu with the given words.
pub open spec fn color_item(t: Seq<char>) -> ColorItem {
    if t == "Load Custom…"@ {
        ColorItem::Load
    } else if t == "Clear Custom"@ {
        ColorItem::Clear
    } else {
        match Colormap::named(t) {
            Some(c) => ColorItem::Named(c),
            None => ColorItem::Nothing,
        }
    }
}

fn color_item_of(t: &Vec<char>) -> (r: ColorItem)
    ensures
        r == color_item(t@),
{
    if same_text(t, "Load Custom…") {
        ColorItem::Load
    } else if same_text(t, "Clear Custom") {
        ColorItem::Clear
    } else {
        let name: String = string_of(t);
        match Colormap::from_name(name.as_str()) {
            Some(c) => ColorItem::Named(c),
            None => ColorItem::Nothing,
        }
    }
}

/// The entry of the zoom menu with the given words. A level is a number and a multiplication
/// sign.
pub open spec fn zoom_item(t: Seq<char>) -> Option<ZoomItem> {
    if t == "Zoom In"@ {
        Some(ZoomItem::In)
    } else if t == "Zoom Out"@ {
        Some(ZoomItem::Out)
    } else if t == "Fit"@ {
        Some(ZoomItem::Fit)
    } else if t == "Reset"@ {
        Some(ZoomItem::Reset)
    } else if t.len() > 0 && t.last() == '×' {
        match Single::parse_spec(trim_back_char(t, '×')) {
            Some(z) => Some(ZoomItem::To(z)),
            None => Some(ZoomItem::Nothing),
        }
    } else {
        None
    }
}

fn zoom_item_of(t: &Vec<char>) -> (r: Option<ZoomItem>)
    ensures
        r == zoom_item(t@),
{
    if same_text(t, "Zoom In") {
        Some(ZoomItem::In)
    } else if same_text(t, "Zoom Out") {
        Some(ZoomItem::Out)
    } else if same_text(t, "Fit") {
        Some(ZoomItem::Fit)
    } else if same_text(t, "Reset") {
        Some(ZoomItem::Reset)
    } else if t.len() > 0 && t[t.len() - 1] == '×' {
        let w = strip_back(t, '×');
        match Single::parse(&w) {
            Some(z) => Some(ZoomItem::To(z)),
            None => Some(ZoomItem::Nothing),
        }
    } else {
        None
    }
}

/// What an entry of a menu stands for.
pub open spec fn menu_spec(menu: Seq<char>, item: Seq<char>) -> Command {
    if menu == "File"@ {
        match file_item(item) {
            Some(i) => Command::File(i),
            None => Command::Unknown,
        }
    } else if menu == "View"@ {
        match view_item(item) {
            Some(i) => Command::View(i),
            None => Command::Unknown,
        }
    } else if menu == "Frame"@ {
        match frame_item(item) {
            Some(i) => Command::Frame(i),
            None => Command::Unknown,
        }
    } else if menu == "Scale"@ {
        match scale_item(item) {
            Some(i) => Command::Scale(i),
            None => Command::Unknown,
        }
    } else if menu == "Region"@ {
        match region_item(item) {
            Some(i) => Command::Region(i),
            None => Command::Unknown,
        }
    } else if menu == "Catalog"@ {
        match catalog_item(item) {
            Some(i) => Command::Catalog(i),
            None => Command::Unknown,
        }
    } else if menu == "Analysis"@ {
        match analysis_item(item) {
            Some(i) => Command::Analysis(i),
            None => Command::Unknown,
        }
    } else if menu == "Zoom"@ {
        match zoom_item(item) {
            Some(i) => Command::Zoom(i),
            None => Command::Unknown,
        }
    } else if menu == "Edit"@ {
        match edit_item(item) {
            Some(i) => Command::Edit(i),
            None => Command::Unknown,
        }
    } else if menu == "Bin"@ {
        Command::Bin(bin_item(item))
    } else if menu == "Color"@ {
        Command::Color(color_item(item))
    } else if menu == "Help"@ && item == "About ds9-rust"@ {
        Command::About
    } else {
        Command::Unknown
    }
}

/// What an entry of a menu stands for.
pub fn menu_command(menu: &Vec<char>, item: &Vec<char>) -> (r: Command)
    ensures
        r == menu_spec(menu@, item@),
{
    if same_text(menu, "File") {
        match file_item_of(item) {
            Some(i) => Command::File(i),
            None => Command::Unknown,
        }
    } else if same_text(menu, "View") {
        match view_item_of(item) {
            Some(i) => Command::View(i),
            None => Command::Unknown,
        }
    } else if same_text(menu, "Frame") {
        match frame_item_of(item) {
            Some(i) => Command::Frame(i),
            None => Command::Unknown,
        }
    } else if same_text(menu, "Scale") {
        match scale_item_of(item) {
            Some(i) => Command::Scale(i),
            None => Command::Unknown,
        }
    } else if same_text(menu, "Region") {
        match region_item_of(item) {
            Some(i) => Command::Region(i),
            None => Command::Unknown,
        }
    } else if same_text(menu, "Catalog") {
        match catalog_item_of(item) {
            Some(i) => Command::Catalog(i),
            None => Command::Unknown,
        }
    } else if same_text(menu, "Analysis") {
        match analysis_item_of(item) {
            Some(i) => Command::Analysis(i),
            None => Command::Unknown,
        }
    } else if same_text(menu, "Zoom") {
        match zoom_item_of(item) {
            Some(i) => Command::Zoom(i),
            None => Command::Unknown,
        }
    } else if same_text(menu, "Edit") {
        match edit_item_of(item) {
            Some(i) => Command::Edit(i),
            None => Command::Unknown,
        }
    } else if same_text(menu, "Bin") {
        Command::Bin(bin_item_of(item))
    } else if same_text(menu, "Color") {
        Command::Color(color_item_of(item))
    } else if same_text(menu, "Help") && same_text(item, "About ds9-rust") {
        Command::About
    } else {
        Command::Unknown
    }
}

} // verus!
