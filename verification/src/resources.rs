//! The closed set of resources that recipes consume and produce.

use vstd::prelude::*;

verus! {

/// A raw or crafted item of the production chain.
#[derive(Debug, Clone, Copy, PartialEq, Eq, Hash, Structural)]
pub enum Resource {
    // Iron
    IronOre,
    IronIngot,
    IronPlate,
    IronRod,
    Screws,
    ReinforcedIronPlate,
    // Copper
    CopperOre,
    CopperIngot,
    CopperSheet,
    Wire,
    Cable,
    // Concrete
    Limestone,
    Concrete,
    // Biofuel
    Leaves,
    Wood,
    Mycelia,
    AlienProtein,
    Biomass,
    SolidBiofuel,
    // Quartz
    QuartzOre,
    QuartzCrystal,
    Silica,
    // Caterium
    CateriumOre,
    CateriumIngot,
    Quickwire,
    // Steel
    Coal,
    SteelIngot,
    SteelPipe,
    SteelBeam,
    EncasedIndustrialBeam,
    // Frames
    ModularFrame,
    HeavyModularFrame,
    // Motors
    Rotor,
    Stator,
    Motor,
    TurboMotor,
    // Computers
    CircuitBoard,
    AILimiter,
    CrystalOscillator,
    Computer,
    HighSpeedConnector,
    RadioControlUnit,
    // Oil
    Oil,
    Fuel,
    DilutedPackagedFuel,
    HeavyOilResidue,
    PolymerResin,
    TurboFuel,
    PetroleumCoke,
    Plastic,
    Rubber,
    // Aluminium
    BauxiteOre,
    AluminaSolution,
    AluminiumScrap,
    AluminumIngot,
    AluminumCasing,
    AlcladAluminumSheet,
    HeatSink,
    CoolingSystem,
    Battery,
    // Liquids
    Water,
}

} // verus!
