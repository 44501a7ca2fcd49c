//! What a `.smv` file describes. Text and decimal numbers are kept as the spans of the file
//! they were read from: a number's span holds text that `str::parse::<f32>` accepts.
use vstd::prelude::*;

use crate::formats::smv::lex::Span;
use crate::formats::smv::mesh::{Mesh, MeshView};
use crate::geom::{Bounds3, Vec3};

verus! {

/// The simulated time range.
#[derive(Debug, Clone, Copy, PartialEq, Eq)]
pub struct TimeRange {
    pub time_start: Span,
    pub time_end: Span,
}

/// When Smokeview shows frames.
#[derive(Debug, Clone, Copy, PartialEq, Eq)]
pub struct ViewTimes {
    pub time_end: Span,
    pub num_frames: i32,
}

/// A surface type.
#[derive(Debug, Clone, Copy, PartialEq, Eq)]
pub struct Surface {
    pub id: Span,
    /// `TMPM` in FDS: the melting temperature of water, the conversion factor to Kelvin.
    pub water_melting_temp: Span,
    pub material_emissivity: Span,
    pub surface_type: i32,
    pub texture_width: Span,
    pub texture_height: Span,
    pub rgb: Vec3<Span>,
    pub transparency: Span,
    pub texture: Option<Span>,
}

/// A material and its colour.
#[derive(Debug, Clone, Copy, PartialEq, Eq)]
pub struct Material {
    pub name: Span,
    pub rgb: Vec3<Span>,
}

/// A change of state of a device.
#[derive(Debug, Clone, Copy, PartialEq, Eq)]
pub struct DeviceActivation {
    pub a: i32,
    pub b: Span,
    pub c: i32,
}

/// A device (a measuring point).
#[derive(Debug, Clone)]
pub struct Device {
    pub id: Span,
    pub quantity: Span,
    pub position: Vec3<Span>,
    pub orientation: Vec3<Span>,
    pub state_index: i32,
    pub bounds: Option<Bounds3<Span>>,
    pub activations: Vec<DeviceActivation>,
    pub property_id: Span,
}

/// A device, with its activations as a sequence.
pub struct DeviceView {
    pub id: Span,
    pub quantity: Span,
    pub position: Vec3<Span>,
    pub orientation: Vec3<Span>,
    pub state_index: i32,
    pub bounds: Option<Bounds3<Span>>,
    pub activations: Seq<DeviceActivation>,
    pub property_id: Span,
}

impl View for Device {
    type V = DeviceView;

    open spec fn view(&self) -> DeviceView {
        DeviceView {
            id: self.id,
            quantity: self.quantity,
            position: self.position,
            orientation: self.orientation,
            state_index: self.state_index,
            bounds: self.bounds,
            activations: self.activations@,
            property_id: self.property_id,
        }
    }
}

/// The kind of a 3D smoke file: `SMOKF3D` or `SMOKG3D`.
#[derive(Debug, Clone, Copy, PartialEq, Eq)]
pub enum Smoke3DType {
    F,
    G,
}

/// A quantity: its label, short label and unit.
#[derive(Debug, Clone, Copy, PartialEq, Eq)]
pub struct Quantity {
    pub label: Span,
    pub bar_label: Span,
    pub unit: Span,
}

/// A 3D smoke file.
#[derive(Debug, Clone, Copy, PartialEq, Eq)]
pub struct Smoke3D {
    pub mesh_index: i32,
    pub file_name: Span,
    pub quantity: Quantity,
    pub smoke_type: Smoke3DType,
    pub mass_extinction_coefficient: Option<Span>,
}

/// A slice file.
#[derive(Debug, Clone, Copy, PartialEq, Eq)]
pub struct Slice {
    pub mesh_index: i32,
    pub file_name: Span,
    pub quantity: Span,
    pub name: Span,
    pub unit: Span,
    pub cell_centered: bool,
    pub slice_type: Span,
    pub bounds: Bounds3<i32>,
    pub id: Option<Span>,
}

/// A Plot3D file and its five quantities.
#[derive(Debug, Clone, Copy, PartialEq, Eq)]
pub struct Plot3D {
    pub file_name: Span,
    pub mesh_index: i32,
    pub quantities: (Quantity, Quantity, Quantity, Quantity, Quantity),
}

/// A property of devices, with the Smokeview ids and properties it sets.
#[derive(Debug, Clone)]
pub struct Property {
    pub name: Span,
    pub smv_ids: Vec<Span>,
    pub smv_props: Vec<Span>,
}

/// A property, with its lists as sequences.
pub struct PropertyView {
    pub name: Span,
    pub smv_ids: Seq<Span>,
    pub smv_props: Seq<Span>,
}

impl View for Property {
    type V = PropertyView;

    open spec fn view(&self) -> PropertyView {
        PropertyView { name: self.name, smv_ids: self.smv_ids@, smv_props: self.smv_props@ }
    }
}

/// A point of a ramp.
#[derive(Debug, Clone, Copy, PartialEq, Eq)]
pub struct RampValue {
    pub independent: Span,
    pub dependent: Span,
}

/// A ramp: a named piecewise linear function.
#[derive(Debug, Clone)]
pub struct Ramp {
    pub name: Span,
    pub values: Vec<RampValue>,
}

/// A ramp, with its points as a sequence.
pub struct RampView {
    pub name: Span,
    pub values: Seq<RampValue>,
}

impl View for Ramp {
    type V = RampView;

    open spec fn view(&self) -> RampView {
        RampView { name: self.name, values: self.values@ }
    }
}

/// The views of the elements of `v`.
pub open spec fn views<T: View>(v: Seq<T>) -> Seq<T::V> {
    v.map_values(|x: T| x@)
}

/// A simulation as its `.smv` file describes it.
#[derive(Debug)]
pub struct Smv {
    pub title: Span,
    /// The version, and a second line of it where the file has one that is not blank.
    pub fds_version: (Span, Option<Span>),
    pub end_version: Span,
    pub input_file: Span,
    pub revision: Span,
    pub chid: Span,
    pub solid_ht3d: Option<i32>,
    pub meshes: Vec<Mesh>,
    /// The devices, one for each id, in the order of their first definition.
    pub devices: Vec<Device>,
    pub hrrpuv_cutoff: Span,
    pub smoke_albedo: Span,
    /// From `dump.f90`: "Parameter passed to smokeview (in .smv file) to control generation
    /// of blockages".
    pub i_blank: bool,
    pub gravity_vec: Vec3<Span>,
    pub surfaces: Vec<Surface>,
    pub ramps: Vec<Ramp>,
    pub outlines: Vec<Bounds3<Span>>,
    pub default_surface_id: Span,
    pub viewtimes: ViewTimes,
    pub xyz_files: Vec<Span>,
    pub time_range: Option<TimeRange>,
    pub heat_of_combustion: Option<Span>,
    pub reaction_fuel: Option<Span>,
    pub materials: Vec<Material>,
    pub smoke3d: Vec<Smoke3D>,
    pub slices: Vec<Slice>,
    pub plot3d: Vec<Plot3D>,
    pub properties: Vec<Property>,
    /// The names and files of the CSV files.
    pub csv_files: Vec<(Span, Span)>,
}

/// A simulation, with its lists as sequences of views.
pub struct SmvView {
    pub title: Span,
    pub fds_version: (Span, Option<Span>),
    pub end_version: Span,
    pub input_file: Span,
    pub revision: Span,
    pub chid: Span,
    pub solid_ht3d: Option<i32>,
    pub meshes: Seq<MeshView>,
    pub devices: Seq<DeviceView>,
    pub hrrpuv_cutoff: Span,
    pub smoke_albedo: Span,
    pub i_blank: bool,
    pub gravity_vec: Vec3<Span>,
    pub surfaces: Seq<Surface>,
    pub ramps: Seq<RampView>,
    pub outlines: Seq<Bounds3<Span>>,
    pub default_surface_id: Span,
    pub viewtimes: ViewTimes,
    pub xyz_files: Seq<Span>,
    pub time_range: Option<TimeRange>,
    pub heat_of_combustion: Option<Span>,
    pub reaction_fuel: Option<Span>,
    pub materials: Seq<Material>,
    pub smoke3d: Seq<Smoke3D>,
    pub slices: Seq<Slice>,
    pub plot3d: Seq<Plot3D>,
    pub properties: Seq<PropertyView>,
    pub csv_files: Seq<(Span, Span)>,
}

impl View for Smv {
    type V = SmvView;

    open spec fn view(&self) -> SmvView {
        SmvView {
            title: self.title,
            fds_version: self.fds_version,
            end_version: self.end_version,
            input_file: self.input_file,
            revision: self.revision,
            chid: self.chid,
            solid_ht3d: self.solid_ht3d,
            meshes: views(self.meshes@),
            devices: views(self.devices@),
            hrrpuv_cutoff: self.hrrpuv_cutoff,
            smoke_albedo: self.smoke_albedo,
            i_blank: self.i_blank,
            gravity_vec: self.gravity_vec,
            surfaces: self.surfaces@,
            ramps: views(self.ramps@),
            outlines: self.outlines@,
            default_surface_id: self.default_surface_id,
            viewtimes: self.viewtimes,
            xyz_files: self.xyz_files@,
            time_range: self.time_range,
            heat_of_combustion: self.heat_of_combustion,
            reaction_fuel: self.reaction_fuel,
            materials: self.materials@,
            smoke3d: self.smoke3d@,
            slices: self.slices@,
            plot3d: self.plot3d@,
            properties: views(self.properties@),
            csv_files: self.csv_files@,
        }
    }
}

/// What has been read of a `.smv` file so far.
pub struct SmvState {
    pub title: Option<Span>,
    pub fds_version: Option<(Span, Option<Span>)>,
    pub end_file: Option<Span>,
    pub input_file: Option<Span>,
    pub revision: Option<Span>,
    pub chid: Option<Span>,
    pub solid_ht3d: Option<i32>,
    pub num_meshes: Option<usize>,
    pub hrrpuv_cutoff: Option<Span>,
    pub heat_of_combustion: Option<Span>,
    pub reaction_fuel: Option<Span>,
    pub time_range: Option<TimeRange>,
    pub viewtimes: Option<ViewTimes>,
    pub smoke_albedo: Option<Span>,
    pub i_blank: Option<bool>,
    pub gravity_vec: Option<Vec3<Span>>,
    pub default_surface_id: Option<Span>,
    pub outlines: Option<Vec<Bounds3<Span>>>,
    pub default_texture_origin: Option<Vec3<Span>>,
    pub ramps: Option<Vec<Ramp>>,
    pub meshes: Vec<Mesh>,
    pub surfaces: Vec<Surface>,
    pub materials: Vec<Material>,
    pub devices: Vec<Device>,
    pub smoke3d: Vec<Smoke3D>,
    pub slices: Vec<Slice>,
    pub plot3d: Vec<Plot3D>,
    pub properties: Vec<Property>,
    pub xyz_files: Vec<Span>,
    pub csv_files: Vec<(Span, Span)>,
    /// The sections that were skipped as unknown.
    pub warnings: Vec<Span>,
}

/// What has been read so far, with its lists as sequences of views.
pub struct StateView {
    pub title: Option<Span>,
    pub fds_version: Option<(Span, Option<Span>)>,
    pub end_file: Option<Span>,
    pub input_file: Option<Span>,
    pub revision: Option<Span>,
    pub chid: Option<Span>,
    pub solid_ht3d: Option<i32>,
    pub num_meshes: Option<usize>,
    pub hrrpuv_cutoff: Option<Span>,
    pub heat_of_combustion: Option<Span>,
    pub reaction_fuel: Option<Span>,
    pub time_range: Option<TimeRange>,
    pub viewtimes: Option<ViewTimes>,
    pub smoke_albedo: Option<Span>,
    pub i_blank: Option<bool>,
    pub gravity_vec: Option<Vec3<Span>>,
    pub default_surface_id: Option<Span>,
    pub outlines: Option<Seq<Bounds3<Span>>>,
    pub default_texture_origin: Option<Vec3<Span>>,
    pub ramps: Option<Seq<RampView>>,
    pub meshes: Seq<MeshView>,
    pub surfaces: Seq<Surface>,
    pub materials: Seq<Material>,
    pub devices: Seq<DeviceView>,
    pub smoke3d: Seq<Smoke3D>,
    pub slices: Seq<Slice>,
    pub plot3d: Seq<Plot3D>,
    pub properties: Seq<PropertyView>,
    pub xyz_files: Seq<Span>,
    pub csv_files: Seq<(Span, Span)>,
    pub warnings: Seq<Span>,
}

impl View for SmvState {
    type V = StateView;

    open spec fn view(&self) -> StateView {
        StateView {
            title: self.title,
            fds_version: self.fds_version,
            end_file: self.end_file,
            input_file: self.input_file,
            revision: self.revision,
            chid: self.chid,
            solid_ht3d: self.solid_ht3d,
            num_meshes: self.num_meshes,
            hrrpuv_cutoff: self.hrrpuv_cutoff,
            heat_of_combustion: self.heat_of_combustion,
            reaction_fuel: self.reaction_fuel,
            time_range: self.time_range,
            viewtimes: self.viewtimes,
            smoke_albedo: self.smoke_albedo,
            i_blank: self.i_blank,
            gravity_vec: self.gravity_vec,
            default_surface_id: self.default_surface_id,
            outlines: match self.outlines {
                Some(v) => Some(v@),
                None => None,
            },
            default_texture_origin: self.default_texture_origin,
            ramps: match self.ramps {
                Some(v) => Some(views(v@)),
                None => None,
            },
            meshes: views(self.meshes@),
            surfaces: self.surfaces@,
            materials: self.materials@,
            devices: views(self.devices@),
            smoke3d: self.smoke3d@,
            slices: self.slices@,
            plot3d: self.plot3d@,
            properties: views(self.properties@),
            xyz_files: self.xyz_files@,
            csv_files: self.csv_files@,
            warnings: self.warnings@,
        }
    }
}

/// Nothing read yet.
pub open spec fn empty_state() -> StateView {
    StateView {
        title: None,
        fds_version: None,
        end_file: None,
        input_file: None,
        revision: None,
        chid: None,
        solid_ht3d: None,
        num_meshes: None,
        hrrpuv_cutoff: None,
        heat_of_combustion: None,
        reaction_fuel: None,
        time_range: None,
        viewtimes: None,
        smoke_albedo: None,
        i_blank: None,
        gravity_vec: None,
        default_surface_id: None,
        outlines: None,
        default_texture_origin: None,
        ramps: None,
        meshes: Seq::empty(),
        surfaces: Seq::empty(),
        materials: Seq::empty(),
        devices: Seq::empty(),
        smoke3d: Seq::empty(),
        slices: Seq::empty(),
        plot3d: Seq::empty(),
        properties: Seq::empty(),
        xyz_files: Seq::empty(),
        csv_files: Seq::empty(),
        warnings: Seq::empty(),
    }
}

impl SmvState {
    /// Nothing read yet.
    pub fn new() -> (r: SmvState)
        ensures
            r@ == empty_state(),
    {
        let r = SmvState {
            title: None,
            fds_version: None,
            end_file: None,
            input_file: None,
            revision: None,
            chid: None,
            solid_ht3d: None,
            num_meshes: None,
            hrrpuv_cutoff: None,
            heat_of_combustion: None,
            reaction_fuel: None,
            time_range: None,
            viewtimes: None,
            smoke_albedo: None,
            i_blank: None,
            gravity_vec: None,
            default_surface_id: None,
            outlines: None,
            default_texture_origin: None,
            ramps: None,
            meshes: Vec::new(),
            surfaces: Vec::new(),
            materials: Vec::new(),
            devices: Vec::new(),
            smoke3d: Vec::new(),
            slices: Vec::new(),
            plot3d: Vec::new(),
            properties: Vec::new(),
            xyz_files: Vec::new(),
            csv_files: Vec::new(),
            warnings: Vec::new(),
        };
        assert(views(r.meshes@) =~= Seq::<MeshView>::empty());
        assert(views(r.devices@) =~= Seq::<DeviceView>::empty());
        assert(views(r.properties@) =~= Seq::<PropertyView>::empty());
        r
    }
}

} // verus!
