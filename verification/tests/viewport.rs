use donut::frame::Frame;
use donut::projection::Projection;
use donut::sample::sample;
use donut::trig::Trig;

const THETAS: [(i64, i64); 90] = [
    (1048576, 0), (1046008, 73340), (1038316, 146321), (1025539, 218586), (1007739, 289779),
    (985003, 359554), (957443, 427567), (925193, 493487), (888411, 556989), (847278, 617763),
    (801995, 675511), (752783, 729950), (699885, 780814), (643559, 827854), (584080, 870839),
    (521741, 909559), (456846, 943823), (389713, 973465), (320672, 998339), (250060, 1018322),
    (178223, 1033318), (105513, 1043253), (32287, 1048078), (-41097, 1047770),
    (-114280, 1042329), (-186904, 1031784), (-258612, 1016184), (-329054, 995607),
    (-397884, 970154), (-464764, 939949), (-529369, 905140), (-591381, 865898),
    (-650496, 822414), (-706425, 774903), (-758894, 723596), (-807646, 668744),
    (-852441, 610617), (-893062, 549500), (-929309, 485691), (-961003, 419503),
    (-987991, 351260), (-1010140, 281297), (-1027341, 209956), (-1039510, 137587),
    (-1046587, 64543), (-1048538, -8815), (-1045354, -82131), (-1037049, -155045),
    (-1023665, -227200), (-1005267, -298241), (-981946, -367822), (-953814, -435602),
    (-921011, -501247), (-883697, -564438), (-842054, -624864), (-796287, -682229),
    (-746620, -736253), (-693296, -786671), (-636576, -833235), (-576738, -875719),
    (-514075, -913913), (-448895, -947631), (-381515, -976707), (-312267, -1000999),
    (-241490, -1020389), (-169529, -1034780), (-96739, -1044104), (-23474, -1048313),
    (49904, -1047387), (123039, -1041332), (195572, -1030176), (267146, -1013974),
    (337412, -992806), (406026, -966775), (472650, -936008), (536960, -900658),
    (598640, -860895), (657387, -816916), (712915, -768936), (764950, -717190),
    (813239, -661931), (857545, -603429), (897650, -541972), (933359, -477861),
    (964496, -411409), (990909, -342941), (1012469, -272794), (1029070, -201311),
    (1040630, -128842), (1047093, -55742),
];

const PHIS: [(i64, i64); 315] = [
    (1048576, 0), (1048366, 20970), (1047737, 41931), (1046689, 62876), (1045222, 83796),
    (1043337, 104682), (1041035, 125527), (1038316, 146321), (1035182, 167057),
    (1031634, 187726), (1027674, 208319), (1023302, 228830), (1018521, 249249),
    (1013333, 269568), (1007739, 289779), (1001742, 309875), (995345, 329846), (988549, 349686),
    (981358, 369386), (973775, 388938), (965802, 408334), (957443, 427567), (948700, 446629),
    (939579, 465513), (930081, 484210), (920212, 502714), (909974, 521016), (899372, 539110),
    (888411, 556989), (877094, 574644), (865427, 592070), (853413, 609259), (841058, 626204),
    (828366, 642899), (815344, 659337), (801995, 675511), (788325, 691414), (774340, 707042),
    (760045, 722386), (745446, 737441), (730549, 752202), (715360, 766661), (699885, 780814),
    (684130, 794655), (668101, 808178), (651805, 821377), (635248, 834248), (618437, 846786),
    (601379, 858984), (584080, 870839), (566548, 882346), (548788, 893500), (530810, 904296),
    (512619, 914731), (494223, 924799), (475630, 934498), (456846, 943823), (437879, 952771),
    (418737, 961337), (399428, 969519), (379959, 977313), (360338, 984717), (340573, 991726),
    (320672, 998339), (300642, 1004552), (280492, 1010363), (260230, 1015771),
    (239864, 1020772), (219402, 1025365), (198852, 1029548), (178223, 1033318),
    (157522, 1036676), (136759, 1039619), (115940, 1042146), (95076, 1044256), (74173, 1045949),
    (53240, 1047223), (32287, 1048078), (11320, 1048514), (-9650, 1048531), (-30617, 1048128),
    (-51572, 1047306), (-72507, 1046066), (-93412, 1044406), (-114280, 1042329),
    (-135103, 1039835), (-155871, 1036926), (-176577, 1033601), (-197212, 1029863),
    (-217769, 1025713), (-238238, 1021153), (-258612, 1016184), (-278883, 1010809),
    (-299042, 1005029), (-319081, 998848), (-338993, 992267), (-358769, 985289),
    (-378402, 977917), (-397884, 970154), (-417206, 962003), (-436361, 953467),
    (-455342, 944550), (-474141, 935254), (-492750, 925585), (-511162, 915546),
    (-529369, 905140), (-547365, 894372), (-565142, 883247), (-582692, 871768),
    (-600010, 859941), (-617088, 847769), (-633919, 835259), (-650496, 822414),
    (-666813, 809241), (-682863, 795744), (-698641, 781928), (-714138, 767800),
    (-729351, 753364), (-744271, 738628), (-758894, 723596), (-773213, 708274),
    (-787223, 692669), (-800918, 676787), (-814292, 660634), (-827341, 644218),
    (-840059, 627543), (-852441, 610617), (-864483, 593448), (-876178, 576040),
    (-887523, 558403), (-898512, 540542), (-909143, 522465), (-919410, 504179),
    (-929309, 485691), (-938836, 467009), (-947988, 448140), (-956760, 429092),
    (-965150, 409872), (-973154, 390488), (-980769, 370948), (-987991, 351260),
    (-994818, 331431), (-1001248, 311470), (-1007276, 291384), (-1012902, 271182),
    (-1018123, 250871), (-1022936, 230459), (-1027341, 209956), (-1031334, 189368),
    (-1034915, 168705), (-1038082, 147975), (-1040834, 127185), (-1043169, 106344),
    (-1045087, 85461), (-1046587, 64543), (-1047669, 43600), (-1048331, 22639),
    (-1048574, 1670), (-1048398, -19300), (-1047802, -40263), (-1046787, -61209),
    (-1045354, -82131), (-1043502, -103021), (-1041233, -123869), (-1038548, -144667),
    (-1035447, -165408), (-1031932, -186082), (-1028004, -206682), (-1023665, -227200),
    (-1018917, -247626), (-1013761, -267954), (-1008199, -288174), (-1002235, -308279),
    (-995869, -328261), (-989105, -348111), (-981946, -367822), (-974393, -387386),
    (-966451, -406796), (-958122, -426042), (-949411, -445118), (-940319, -464016),
    (-930851, -482728), (-921011, -501247), (-910803, -519566), (-900230, -537677),
    (-889297, -555573), (-878008, -573247), (-866368, -590691), (-854382, -607899),
    (-842054, -624864), (-829389, -641579), (-816393, -658037), (-803069, -674233),
    (-789425, -690158), (-775465, -705807), (-761195, -721175), (-746620, -736253),
    (-731747, -751037), (-716580, -765521), (-701128, -779699), (-685395, -793564),
    (-669387, -807113), (-653112, -820338), (-636576, -833235), (-619785, -845800),
    (-602746, -858025), (-585466, -869908), (-567952, -881442), (-550211, -892624),
    (-532249, -903449), (-514075, -913913), (-495695, -924011), (-477117, -933739),
    (-458348, -943094), (-439396, -952072), (-420268, -960669), (-400972, -968882),
    (-381515, -976707), (-361906, -984141), (-342152, -991182), (-322261, -997827),
    (-302242, -1004072), (-282101, -1009915), (-261848, -1015355), (-241490, -1020389),
    (-221035, -1025014), (-200492, -1029230), (-179868, -1033033), (-159173, -1036424),
    (-138414, -1039400), (-117600, -1041960), (-96739, -1044104), (-75839, -1045829),
    (-54908, -1047137), (-33956, -1048026), (-12990, -1048495), (7980, -1048545),
    (28948, -1048176), (49904, -1047387), (70841, -1046180), (91749, -1044554),
    (112620, -1042510), (133446, -1040049), (154219, -1037173), (174931, -1033881),
    (195572, -1030176), (216135, -1026059), (236612, -1021531), (256993, -1016595),
    (277273, -1011252), (297441, -1005504), (317490, -999355), (337412, -992806),
    (357200, -985859), (376844, -978519), (396338, -970787), (415673, -962666),
    (434842, -954161), (453837, -945274), (472650, -936008), (491275, -926369),
    (509703, -916359), (527927, -905982), (545940, -895243), (563734, -884146),
    (581303, -872695), (598640, -860895), (615737, -848751), (632587, -836267),
    (649185, -823449), (665523, -810302), (681595, -796830), (697394, -783040),
    (712915, -768936), (728150, -754525), (743094, -739812), (757740, -724803),
    (772084, -709505), (786119, -693922), (799839, -678062), (813239, -661931),
    (826314, -645534), (839059, -628880), (851468, -611974), (863536, -594824),
    (875259, -577435), (886632, -559816), (897650, -541972), (908310, -523912),
    (918606, -505642), (928534, -487170), (938091, -468503), (947273, -449649),
    (956076, -430615), (964496, -411409), (972531, -392038), (980177, -372510),
    (987431, -352833), (994289, -333015), (1000750, -313064), (1006811, -292988),
    (1012469, -272794), (1017722, -252492), (1022568, -232088), (1027005, -211592),
    (1031031, -191011), (1034645, -170353), (1037845, -149628), (1040630, -128842),
    (1042998, -108005), (1044950, -87125), (1046483, -66210), (1047598, -45269),
    (1048294, -24309), (1048570, -3340),
];

fn pairs(table: &[(i64, i64)]) -> Vec<Trig> {
    table.iter().map(|&(cos, sin)| Trig::new(cos, sin).unwrap()).collect()
}

fn off_screen(p: &Projection, width: u16, height: u16, a: &Trig, b: &Trig) -> usize {
    let mut off = 0;
    for theta in pairs(&THETAS) {
        for phi in pairs(&PHIS) {
            let s = sample(p, width, height, a, b, &theta, &phi);
            if s.row < 0 || s.row >= height as i64 || s.col < 0 || s.col >= width as i64 {
                off += 1;
            }
        }
    }
    off
}

#[test]
fn the_standard_torus_stays_on_a_screen_as_high_as_wide() {
    let p = Projection::standard();
    for &(cos, sin) in THETAS.iter().step_by(9) {
        let a = Trig::new(cos, sin).unwrap();
        let b = Trig::new(sin, -cos).unwrap();
        assert_eq!(off_screen(&p, 30, 30, &a, &b), 0);
    }
    let rest = Trig::zero();
    assert_eq!(off_screen(&p, 1, 1, &rest, &rest), 0);
    assert_eq!(off_screen(&p, 7, 40, &rest, &rest), 0);
    assert_eq!(off_screen(&p, 65535, 65535, &rest, &rest), 0);
}

#[test]
fn a_screen_wider_than_high_cuts_the_torus() {
    let p = Projection::standard();
    let turn = Trig::new(566548, 882346).unwrap();
    assert_eq!(off_screen(&p, 40, 20, &turn, &turn), 6159);
}

#[test]
fn a_viewer_too_near_does_not_see_all_of_the_torus() {
    let p = Projection::new(1, 2, 4).unwrap();
    let rest = Trig::zero();
    let turn = Trig::new(566548, 882346).unwrap();
    assert_eq!(off_screen(&p, 30, 30, &rest, &rest), 925);
    assert_eq!(off_screen(&p, 30, 30, &turn, &turn), 304);
}

#[test]
fn what_falls_off_the_screen_is_left_out() {
    let mut frame = Frame::new(30, 30);
    let rest = Trig::zero();
    frame.render_frame(&Projection::new(1, 2, 4).unwrap(), &rest, &rest, &pairs(&THETAS), &pairs(&PHIS));
    let expected = [
        "                              ",
        "                              ",
        "                              ",
        "                              ",
        "                              ",
        "                              ",
        "       $@@@@@@@@@@@@@@@       ",
        "    $$@@@@@@@@@@@@@@@@@@$$    ",
        "  $$$$$$$$$$$$$$$$$$$$$$$$$$$ ",
        "$$$$$$$$$$$$$$$$$$$$$$$$$$$$$$",
        "#####$$$$$$$$$$$$$$$$$$$$#####",
        "##############################",
        "**######**#########***######**",
        "******************************",
        "!******    .:=**=:.   *******!",
        "!!!!!!!!!!!!!!!!!!!!!!!!!!!!!!",
        "==============================",
        ";;;;======================;;;;",
        ":;;;;;;;;;;;;;;;;;;;;;;;;;;;;:",
        "~~~::::::::::::::::::::::::~~~",
        ",--~~~::::::::::::::::::~~~--,",
        "  .,-----~~~~~~~~~~~------,,  ",
        "     ...,,,,,,,,,,,,,,...     ",
        "            ......            ",
        "                              ",
        "                              ",
        "                              ",
        "                              ",
        "                              ",
        "                              ",
    ];
    for (row, line) in expected.iter().enumerate() {
        for (col, glyph) in line.chars().enumerate() {
            assert_eq!(frame.cell(row, col).unwrap().glyph, glyph);
        }
    }
}
