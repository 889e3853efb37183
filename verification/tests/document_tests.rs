use pdf_verify::document::parse_pdf;
use pdf_verify::error::PdfError;
use pdf_verify::signature::verify_pdf_signature;
use pdf_verify::{extract_text, validate_and_extract_pdf};

fn doc_unhex(parts: &[&str]) -> Vec<u8> {
    let text: String = parts.concat();
    let bytes = text.as_bytes();
    let mut out = Vec::new();
    let mut i = 0;
    while i + 1 < bytes.len() {
        let hi = (bytes[i] as char).to_digit(16).unwrap() as u8;
        let lo = (bytes[i + 1] as char).to_digit(16).unwrap() as u8;
        out.push(hi * 16 + lo);
        i += 2;
    }
    out
}

fn unsigned_pdf() -> Vec<u8> {
    doc_unhex(&[
    "255044462d312e340a312030206f626a0a3c3c202f54797065202f436174616c6f67202f506167657320322030205220",
    "3e3e0a656e646f626a0a322030206f626a0a3c3c202f54797065202f5061676573202f4b696473205b33203020525d20",
    "2f436f756e742031203e3e0a656e646f626a0a332030206f626a0a3c3c202f54797065202f50616765202f506172656e",
    "74203220302052202f5265736f7572636573203c3c202f466f6e74203c3c202f4631203520302052203e3e203e3e202f",
    "436f6e74656e7473203420302052203e3e0a656e646f626a0a342030206f626a0a3c3c202f4c656e677468203236203e",
    "3e0a73747265616d0a4254202f4631203132205466202848656c6c6f2920546a2045540a656e6473747265616d0a656e",
    "646f626a0a352030206f626a0a3c3c202f54797065202f466f6e74202f53756274797065202f5479706531202f426173",
    "65466f6e74202f48656c766574696361202f456e636f64696e67202f57696e416e7369456e636f64696e67203e3e0a65",
    "6e646f626a0a787265660a3020310a303030303030303030302036353533352066200a747261696c65720a3c3c202f52",
    "6f6f74203120302052202f53697a652037203e3e0a7374617274787265660a300a2525454f460a",
    ])
}

fn flate_pdf() -> Vec<u8> {
    doc_unhex(&[
    "255044462d312e340a312030206f626a0a3c3c202f54797065202f436174616c6f67202f506167657320322030205220",
    "3e3e0a656e646f626a0a322030206f626a0a3c3c202f54797065202f5061676573202f4b696473205b33203020525d20",
    "2f436f756e742031203e3e0a656e646f626a0a332030206f626a0a3c3c202f54797065202f50616765202f506172656e",
    "74203220302052202f5265736f7572636573203c3c202f466f6e74203c3c202f4631203520302052203e3e203e3e202f",
    "436f6e74656e7473203420302052203e3e0a656e646f626a0a342030206f626a0a3c3c202f4c656e677468203334202f",
    "46696c746572202f466c6174654465636f6465203e3e0a73747265616d0a789c730a51d0773354303452084953d0f048",
    "cdc9c9d75408c952700d010054a906b60a656e6473747265616d0a656e646f626a0a352030206f626a0a3c3c202f5479",
    "7065202f466f6e74202f53756274797065202f5479706531202f42617365466f6e74202f48656c766574696361202f45",
    "6e636f64696e67202f57696e416e7369456e636f64696e67203e3e0a656e646f626a0a787265660a3020310a30303030",
    "3030303030302036353533352066200a747261696c65720a3c3c202f526f6f74203120302052202f53697a652037203e",
    "3e0a7374617274787265660a300a2525454f460a",
    ])
}

fn cid_pdf() -> Vec<u8> {
    doc_unhex(&[
    "255044462d312e340a312030206f626a0a3c3c202f54797065202f436174616c6f67202f506167657320322030205220",
    "3e3e0a656e646f626a0a322030206f626a0a3c3c202f54797065202f5061676573202f4b696473205b33203020525d20",
    "2f436f756e742031203e3e0a656e646f626a0a332030206f626a0a3c3c202f54797065202f50616765202f506172656e",
    "74203220302052202f5265736f7572636573203c3c202f466f6e74203c3c202f4631203520302052203e3e203e3e202f",
    "436f6e74656e7473203420302052203e3e0a656e646f626a0a342030206f626a0a3c3c202f4c656e677468203331203e",
    "3e0a73747265616d0a4254202f4631203132205466203c303034313e3c303034323e20546a2045540a656e6473747265",
    "616d0a656e646f626a0a352030206f626a0a3c3c202f54797065202f466f6e74202f53756274797065202f5479706530",
    "202f42617365466f6e74202f54657374202f456e636f64696e67202f4964656e746974792d48202f546f556e69636f64",
    "65203620302052203e3e0a656e646f626a0a362030206f626a0a3c3c202f4c656e67746820313735203e3e0a73747265",
    "616d0a2f434944496e6974202f50726f635365742066696e647265736f7572636520626567696e0a3132206469637420",
    "626567696e0a626567696e636d61700a3120626567696e636f6465737061636572616e67650a3c303030303e203c4646",
    "46463e0a656e64636f6465737061636572616e67650a3220626567696e6266636861720a3c303034313e203c30303431",
    "3e0a3c303034323e203c303034323e0a656e646266636861720a656e64636d61700a0a656e6473747265616d0a656e64",
    "6f626a0a787265660a3020310a303030303030303030302036353533352066200a747261696c65720a3c3c202f526f6f",
    "74203120302052202f53697a652037203e3e0a7374617274787265660a300a2525454f460a",
    ])
}

fn signed_pdf() -> Vec<u8> {
    doc_unhex(&[
    "255044462d312e340a342030206f626a0a3c3c202f4c656e677468203236203e3e0a73747265616d0a4254202f463120",
    "3132205466202848656c6c6f2920546a2045540a656e6473747265616d0a656e646f626a0a352030206f626a0a3c3c20",
    "2f54797065202f536967202f46696c746572202f41646f62652e50504b4c697465202f53756246696c746572202f6164",
    "62652e706b6373372e6465746163686564202f4279746552616e6765205b303030303030303030302030303030303030",
    "323239203030303030303137353920303030303030303339375d202f436f6e74656e7473203c33303832303266383036",
    "303932613836343838366637306430313037303261303832303265393330383230326535303230313031333130663330",
    "306430363039363038363438303136353033303430323031303530303330306230363039326138363438383666373064",
    "303130373031613038323031613733303832303161333330383230313063613030333032303130323032303430313233",
    "343536373330306430363039326138363438383666373064303130313062303530303330313633313134333031323036",
    "303335353034303331333062353436353733373432303533363936373665363537323330316531373064333233343330",
    "333133303331333033303330333033303330356131373064333333343330333133303331333033303330333033303330",
    "356133303136333131343330313230363033353530343033313330623534363537333734323035333639363736653635",
    "373233303831396633303064303630393261383634383836663730643031303130313035303030333831386430303330",
    "383138393032383138313030656263353764336336653566633736623961393162383265336236393737323433643262",
    "636362383035373963633434336236636130313962386231316266326435633731306230613839383536653361653933",
    "623664623033323236363431363038616164666431336639663438393031386563343432383936343935376464363735",
    "363561303961643236303838663761363434326234666438333733643235383031343738633431326161383935356537",
    "376139396564383732356261383134323534363932303161333637663064613538383335613633643864353231636132",
    "666130393539376363356637346233386364643037303234643664623032303330313030303133303064303630393261",
    "383634383836663730643031303130623035303030333831383130306235643735373361336561636164313132666134",
    "393162383565653634656663356138383930343836343631363533303239656134376631636136653264343363303035",
    "353934376136346339373132613937306537626238393761396362333635383232636465336137333034336166356632",
    "663232356434633530303938626136373437383132653439373134313865666631616233313434313365666634336139",
    "323734376431353662306432346136373766356138643164323934346634303532323130376666353366333230643431",
    "616139303935386333613464633232643832363332636536653037653232386465663433633239626134366433313832",
    "303131353330383230313131303230313031333031653330313633313134333031323036303335353034303331333062",
    "353436353733373432303533363936373665363537323032303430313233343536373330306430363039363038363438",
    "303136353033303430323031303530306130346233303138303630393261383634383836663730643031303930333331",
    "306230363039326138363438383666373064303130373031333032663036303932613836343838366637306430313039",
    "303433313232303432306462623962333537353237383234623737323166396237306232363039363135623430383662",
    "633666653564663331626131363933616562623634623836373133303064303630393261383634383836663730643031",
    "303130623035303030343831383031303865363730323536393232346334383736333837356537363966653964346238",
    "366161373464613562303036326339333962316532333133633032393537356161663939303637313537326439666232",
    "633430313137346162626237623165343261323766333466346430633363353765356130323036343362353166363134",
    "643165313134353634356436636239666331663062306364306466663438666539323561313030373236336631326166",
    "316535633532356532323934663336666566636366313435323738323665356431323337326462613139383164643864",
    "3033306138313564383432396664386461396236343363316434306264633e203e3e0a656e646f626a0a312030206f62",
    "6a0a3c3c202f54797065202f436174616c6f67202f5061676573203220302052203e3e0a656e646f626a0a322030206f",
    "626a0a3c3c202f54797065202f5061676573202f4b696473205b33203020525d202f436f756e742031203e3e0a656e64",
    "6f626a0a332030206f626a0a3c3c202f54797065202f50616765202f506172656e74203220302052202f5265736f7572",
    "636573203c3c202f466f6e74203c3c202f4631203620302052203e3e203e3e202f436f6e74656e747320342030205220",
    "3e3e0a656e646f626a0a362030206f626a0a3c3c202f54797065202f466f6e74202f53756274797065202f5479706531",
    "202f42617365466f6e74202f48656c766574696361202f456e636f64696e67202f57696e416e7369456e636f64696e67",
    "203e3e0a656e646f626a0a787265660a3020310a303030303030303030302036353533352066200a747261696c65720a",
    "3c3c202f526f6f74203120302052202f53697a652037203e3e0a7374617274787265660a300a2525454f460a",
    ])
}

fn signed_pdf_plain_rsa() -> Vec<u8> {
    doc_unhex(&[
    "255044462d312e340a342030206f626a0a3c3c202f4c656e677468203236203e3e0a73747265616d0a4254202f463120",
    "3132205466202848656c6c6f2920546a2045540a656e6473747265616d0a656e646f626a0a352030206f626a0a3c3c20",
    "2f54797065202f536967202f46696c746572202f41646f62652e50504b4c697465202f53756246696c746572202f6164",
    "62652e706b6373372e6465746163686564202f4279746552616e6765205b303030303030303030302030303030303030",
    "323239203030303030303137353920303030303030303339375d202f436f6e74656e7473203c33303832303266383036",
    "303932613836343838366637306430313037303261303832303265393330383230326535303230313031333130663330",
    "306430363039363038363438303136353033303430323031303530303330306230363039326138363438383666373064",
    "303130373031613038323031613733303832303161333330383230313063613030333032303130323032303430313233",
    "343536373330306430363039326138363438383666373064303130313062303530303330313633313134333031323036",
    "303335353034303331333062353436353733373432303533363936373665363537323330316531373064333233343330",
    "333133303331333033303330333033303330356131373064333333343330333133303331333033303330333033303330",
    "356133303136333131343330313230363033353530343033313330623534363537333734323035333639363736653635",
    "373233303831396633303064303630393261383634383836663730643031303130313035303030333831386430303330",
    "383138393032383138313030656263353764336336653566633736623961393162383265336236393737323433643262",
    "636362383035373963633434336236636130313962386231316266326435633731306230613839383536653361653933",
    "623664623033323236363431363038616164666431336639663438393031386563343432383936343935376464363735",
    "363561303961643236303838663761363434326234666438333733643235383031343738633431326161383935356537",
    "376139396564383732356261383134323534363932303161333637663064613538383335613633643864353231636132",
    "666130393539376363356637346233386364643037303234643664623032303330313030303133303064303630393261",
    "383634383836663730643031303130623035303030333831383130306235643735373361336561636164313132666134",
    "393162383565653634656663356138383930343836343631363533303239656134376631636136653264343363303035",
    "353934376136346339373132613937306537626238393761396362333635383232636465336137333034336166356632",
    "663232356434633530303938626136373437383132653439373134313865666631616233313434313365666634336139",
    "323734376431353662306432346136373766356138643164323934346634303532323130376666353366333230643431",
    "616139303935386333613464633232643832363332636536653037653232386465663433633239626134366433313832",
    "303131353330383230313131303230313031333031653330313633313134333031323036303335353034303331333062",
    "353436353733373432303533363936373665363537323032303430313233343536373330306430363039363038363438",
    "303136353033303430323031303530306130346233303138303630393261383634383836663730643031303930333331",
    "306230363039326138363438383666373064303130373031333032663036303932613836343838366637306430313039",
    "303433313232303432306462623962333537353237383234623737323166396237306232363039363135623430383662",
    "633666653564663331626131363933616562623634623836373133303064303630393261383634383836663730643031",
    "303130313035303030343831383031303865363730323536393232346334383736333837356537363966653964346238",
    "366161373464613562303036326339333962316532333133633032393537356161663939303637313537326439666232",
    "633430313137346162626237623165343261323766333466346430633363353765356130323036343362353166363134",
    "643165313134353634356436636239666331663062306364306466663438666539323561313030373236336631326166",
    "316535633532356532323934663336666566636366313435323738323665356431323337326462613139383164643864",
    "3033306138313564383432396664386461396236343363316434306264633e203e3e0a656e646f626a0a312030206f62",
    "6a0a3c3c202f54797065202f436174616c6f67202f5061676573203220302052203e3e0a656e646f626a0a322030206f",
    "626a0a3c3c202f54797065202f5061676573202f4b696473205b33203020525d202f436f756e742031203e3e0a656e64",
    "6f626a0a332030206f626a0a3c3c202f54797065202f50616765202f506172656e74203220302052202f5265736f7572",
    "636573203c3c202f466f6e74203c3c202f4631203620302052203e3e203e3e202f436f6e74656e747320342030205220",
    "3e3e0a656e646f626a0a362030206f626a0a3c3c202f54797065202f466f6e74202f53756274797065202f5479706531",
    "202f42617365466f6e74202f48656c766574696361202f456e636f64696e67202f57696e416e7369456e636f64696e67",
    "203e3e0a656e646f626a0a787265660a3020310a303030303030303030302036353533352066200a747261696c65720a",
    "3c3c202f526f6f74203120302052202f53697a652037203e3e0a7374617274787265660a300a2525454f460a",
    ])
}

fn tampered_pdf() -> Vec<u8> {
    doc_unhex(&[
    "255044462d312e340a342030206f626a0a3c3c202f4c656e677468203236203e3e0a73747265616d0a4254202f463120",
    "313220546620284a656c6c6f2920546a2045540a656e6473747265616d0a656e646f626a0a352030206f626a0a3c3c20",
    "2f54797065202f536967202f46696c746572202f41646f62652e50504b4c697465202f53756246696c746572202f6164",
    "62652e706b6373372e6465746163686564202f4279746552616e6765205b303030303030303030302030303030303030",
    "323239203030303030303137353920303030303030303339375d202f436f6e74656e7473203c33303832303266383036",
    "303932613836343838366637306430313037303261303832303265393330383230326535303230313031333130663330",
    "306430363039363038363438303136353033303430323031303530303330306230363039326138363438383666373064",
    "303130373031613038323031613733303832303161333330383230313063613030333032303130323032303430313233",
    "343536373330306430363039326138363438383666373064303130313062303530303330313633313134333031323036",
    "303335353034303331333062353436353733373432303533363936373665363537323330316531373064333233343330",
    "333133303331333033303330333033303330356131373064333333343330333133303331333033303330333033303330",
    "356133303136333131343330313230363033353530343033313330623534363537333734323035333639363736653635",
    "373233303831396633303064303630393261383634383836663730643031303130313035303030333831386430303330",
    "383138393032383138313030656263353764336336653566633736623961393162383265336236393737323433643262",
    "636362383035373963633434336236636130313962386231316266326435633731306230613839383536653361653933",
    "623664623033323236363431363038616164666431336639663438393031386563343432383936343935376464363735",
    "363561303961643236303838663761363434326234666438333733643235383031343738633431326161383935356537",
    "376139396564383732356261383134323534363932303161333637663064613538383335613633643864353231636132",
    "666130393539376363356637346233386364643037303234643664623032303330313030303133303064303630393261",
    "383634383836663730643031303130623035303030333831383130306235643735373361336561636164313132666134",
    "393162383565653634656663356138383930343836343631363533303239656134376631636136653264343363303035",
    "353934376136346339373132613937306537626238393761396362333635383232636465336137333034336166356632",
    "663232356434633530303938626136373437383132653439373134313865666631616233313434313365666634336139",
    "323734376431353662306432346136373766356138643164323934346634303532323130376666353366333230643431",
    "616139303935386333613464633232643832363332636536653037653232386465663433633239626134366433313832",
    "303131353330383230313131303230313031333031653330313633313134333031323036303335353034303331333062",
    "353436353733373432303533363936373665363537323032303430313233343536373330306430363039363038363438",
    "303136353033303430323031303530306130346233303138303630393261383634383836663730643031303930333331",
    "306230363039326138363438383666373064303130373031333032663036303932613836343838366637306430313039",
    "303433313232303432306462623962333537353237383234623737323166396237306232363039363135623430383662",
    "633666653564663331626131363933616562623634623836373133303064303630393261383634383836663730643031",
    "303130623035303030343831383031303865363730323536393232346334383736333837356537363966653964346238",
    "366161373464613562303036326339333962316532333133633032393537356161663939303637313537326439666232",
    "633430313137346162626237623165343261323766333466346430633363353765356130323036343362353166363134",
    "643165313134353634356436636239666331663062306364306466663438666539323561313030373236336631326166",
    "316535633532356532323934663336666566636366313435323738323665356431323337326462613139383164643864",
    "3033306138313564383432396664386461396236343363316434306264633e203e3e0a656e646f626a0a312030206f62",
    "6a0a3c3c202f54797065202f436174616c6f67202f5061676573203220302052203e3e0a656e646f626a0a322030206f",
    "626a0a3c3c202f54797065202f5061676573202f4b696473205b33203020525d202f436f756e742031203e3e0a656e64",
    "6f626a0a332030206f626a0a3c3c202f54797065202f50616765202f506172656e74203220302052202f5265736f7572",
    "636573203c3c202f466f6e74203c3c202f4631203620302052203e3e203e3e202f436f6e74656e747320342030205220",
    "3e3e0a656e646f626a0a362030206f626a0a3c3c202f54797065202f466f6e74202f53756274797065202f5479706531",
    "202f42617365466f6e74202f48656c766574696361202f456e636f64696e67202f57696e416e7369456e636f64696e67",
    "203e3e0a656e646f626a0a787265660a3020310a303030303030303030302036353533352066200a747261696c65720a",
    "3c3c202f526f6f74203120302052202f53697a652037203e3e0a7374617274787265660a300a2525454f460a",
    ])
}

fn mismatched_pdf() -> Vec<u8> {
    doc_unhex(&[
    "255044462d312e340a342030206f626a0a3c3c202f4c656e677468203236203e3e0a73747265616d0a4254202f463120",
    "3132205466202848656c6c6f2920546a2045540a656e6473747265616d0a656e646f626a0a352030206f626a0a3c3c20",
    "2f54797065202f536967202f46696c746572202f41646f62652e50504b4c697465202f53756246696c746572202f6164",
    "62652e706b6373372e6465746163686564202f4279746552616e6765205b303030303030303030302030303030303030",
    "323239203030303030303137353920303030303030303339375d202f436f6e74656e7473203c33303832303266383036",
    "303932613836343838366637306430313037303261303832303265393330383230326535303230313031333130663330",
    "306430363039363038363438303136353033303430323031303530303330306230363039326138363438383666373064",
    "303130373031613038323031613733303832303161333330383230313063613030333032303130323032303430313233",
    "343536373330306430363039326138363438383666373064303130313062303530303330313633313134333031323036",
    "303335353034303331333062353436353733373432303533363936373665363537323330316531373064333233343330",
    "333133303331333033303330333033303330356131373064333333343330333133303331333033303330333033303330",
    "356133303136333131343330313230363033353530343033313330623534363537333734323035333639363736653635",
    "373233303831396633303064303630393261383634383836663730643031303130313035303030333831386430303330",
    "383138393032383138313030656263353764336336653566633736623961393162383265336236393737323433643262",
    "636362383035373963633434336236636130313962386231316266326435633731306230613839383536653361653933",
    "623664623033323236363431363038616164666431336639663438393031386563343432383936343935376464363735",
    "363561303961643236303838663761363434326234666438333733643235383031343738633431326161383935356537",
    "376139396564383732356261383134323534363932303161333637663064613538383335613633643864353231636132",
    "666130393539376363356637346233386364643037303234643664623032303330313030303133303064303630393261",
    "383634383836663730643031303130623035303030333831383130306235643735373361336561636164313132666134",
    "393162383565653634656663356138383930343836343631363533303239656134376631636136653264343363303035",
    "353934376136346339373132613937306537626238393761396362333635383232636465336137333034336166356632",
    "663232356434633530303938626136373437383132653439373134313865666631616233313434313365666634336139",
    "323734376431353662306432346136373766356138643164323934346634303532323130376666353366333230643431",
    "616139303935386333613464633232643832363332636536653037653232386465663433633239626134366433313832",
    "303131353330383230313131303230313031333031653330313633313134333031323036303335353034303331333062",
    "353436353733373432303533363936373665363537323032303430313233343536373330306430363039363038363438",
    "303136353033303430323031303530306130346233303138303630393261383634383836663730643031303930333331",
    "306230363039326138363438383666373064303130373031333032663036303932613836343838366637306430313039",
    "303433313232303432306462623962333537353237383234623737323166396237306232363039363135623430383662",
    "633666653564663331626131363933616562623634623836373133303064303630393261383634383836663730643031",
    "303130353035303030343831383031303865363730323536393232346334383736333837356537363966653964346238",
    "366161373464613562303036326339333962316532333133633032393537356161663939303637313537326439666232",
    "633430313137346162626237623165343261323766333466346430633363353765356130323036343362353166363134",
    "643165313134353634356436636239666331663062306364306466663438666539323561313030373236336631326166",
    "316535633532356532323934663336666566636366313435323738323665356431323337326462613139383164643864",
    "3033306138313564383432396664386461396236343363316434306264633e203e3e0a656e646f626a0a312030206f62",
    "6a0a3c3c202f54797065202f436174616c6f67202f5061676573203220302052203e3e0a656e646f626a0a322030206f",
    "626a0a3c3c202f54797065202f5061676573202f4b696473205b33203020525d202f436f756e742031203e3e0a656e64",
    "6f626a0a332030206f626a0a3c3c202f54797065202f50616765202f506172656e74203220302052202f5265736f7572",
    "636573203c3c202f466f6e74203c3c202f4631203620302052203e3e203e3e202f436f6e74656e747320342030205220",
    "3e3e0a656e646f626a0a362030206f626a0a3c3c202f54797065202f466f6e74202f53756274797065202f5479706531",
    "202f42617365466f6e74202f48656c766574696361202f456e636f64696e67202f57696e416e7369456e636f64696e67",
    "203e3e0a656e646f626a0a787265660a3020310a303030303030303030302036353533352066200a747261696c65720a",
    "3c3c202f526f6f74203120302052202f53697a652037203e3e0a7374617274787265660a300a2525454f460a",
    ])
}

fn xref_stream_pdf() -> Vec<u8> {
    doc_unhex(&[
    "255044462d312e350a312030206f626a0a3c3c202f54797065202f436174616c6f67202f506167657320322030205220",
    "3e3e0a656e646f626a0a322030206f626a0a3c3c202f54797065202f5061676573202f4b696473205b33203020525d20",
    "2f436f756e742031203e3e0a656e646f626a0a332030206f626a0a3c3c202f54797065202f50616765202f506172656e",
    "74203220302052202f436f6e74656e7473203420302052203e3e0a656e646f626a0a342030206f626a0a3c3c202f4c65",
    "6e677468203230203e3e0a73747265616d0a4254202846726f6d20787265662920546a2045540a656e6473747265616d",
    "0a656e646f626a0a352030206f626a0a3c3c202f54797065202f58526566202f53697a652036202f57205b3120322031",
    "5d202f526f6f74203120302052202f46696c746572202f466c6174654465636f6465202f4c656e677468203238203e3e",
    "0a73747265616d0a789c636060f8cfc8c0c9c0c86005c4c540bc09887f30000023a703650a656e6473747265616d0a65",
    "6e646f626a0a7374617274787265660a3234380a2525454f460a",
    ])
}

#[test]
fn unsigned_uncompressed_text() {
    let result = validate_and_extract_pdf(&unsigned_pdf()).unwrap();
    assert_eq!(result.text_pages, vec!["Hello".to_string()]);
    assert!(!result.signature_valid);
}

#[test]
fn unsigned_pdf_has_no_signature_to_verify() {
    assert!(verify_pdf_signature(&unsigned_pdf()).is_err());
}

#[test]
fn flate_decoded_content() {
    let pages = extract_text(flate_pdf()).unwrap();
    assert_eq!(pages, vec!["Hello".to_string()]);
}

#[test]
fn cid_font_with_to_unicode() {
    let pages = extract_text(cid_pdf()).unwrap();
    assert_eq!(pages, vec!["AB".to_string()]);
}

#[test]
fn valid_sha256_rsa_signature() {
    let pdf = signed_pdf();
    assert_eq!(verify_pdf_signature(&pdf), Ok(true));
    let result = validate_and_extract_pdf(&pdf).unwrap();
    assert!(result.signature_valid);
    assert_eq!(result.text_pages, vec!["Hello".to_string()]);
}

#[test]
fn valid_signature_with_plain_rsa_identifier() {
    assert_eq!(verify_pdf_signature(&signed_pdf_plain_rsa()), Ok(true));
}

#[test]
fn tampered_body_is_rejected() {
    let pdf = tampered_pdf();
    assert_eq!(verify_pdf_signature(&pdf), Ok(false));
    let result = validate_and_extract_pdf(&pdf).unwrap();
    assert!(!result.signature_valid);
    assert_eq!(result.text_pages, vec!["Jello".to_string()]);
}

#[test]
fn tampering_any_signed_byte_is_rejected() {
    let intact = signed_pdf();
    let mut pdf = intact.clone();
    let at = pdf.len() - 3;
    pdf[at] = b'X';
    assert_eq!(verify_pdf_signature(&pdf), Ok(false));
}

#[test]
fn algorithm_mismatch_is_rejected() {
    assert_eq!(verify_pdf_signature(&mismatched_pdf()), Ok(false));
}

#[test]
fn one_text_per_page() {
    let pdf = unsigned_pdf();
    let (pages, _) = parse_pdf(&pdf).unwrap();
    let texts = extract_text(pdf).unwrap();
    assert_eq!(pages.len(), 1);
    assert_eq!(texts.len(), pages.len());
}

#[test]
fn pages_are_the_page_nodes_that_can_be_reached() {
    let pdf = b"%PDF-1.4\n\
1 0 obj\n<< /Type /Catalog /Pages 2 0 R >>\nendobj\n\
2 0 obj\n<< /Type /Pages /Kids [3 0 R 5 0 R 4 0 R 6 0 R (kid) 7 0 R] >>\nendobj\n\
3 0 obj\n<< /Type /Pages /Kids [4 0 R 5 0 R] >>\nendobj\n\
4 0 obj\n<< /Type /Page /Contents 9 0 R >>\nendobj\n\
5 0 obj\n<< /Type /Page /Kids [8 0 R] >>\nendobj\n\
6 0 obj\n<< /Type /Other /Kids [8 0 R] >>\nendobj\n\
7 0 obj\n<< /Kids [8 0 R] >>\nendobj\n\
8 0 obj\n<< /Type /Page >>\nendobj\n\
9 0 obj\n<< /Length 14 >>\nstream\nBT (One) Tj ET\nendstream\nendobj\n\
trailer\n<< /Root 1 0 R >>\n";
    let pages = extract_text(pdf.to_vec()).unwrap();
    assert_eq!(pages, vec!["One".to_string(), String::new()]);
    let result = validate_and_extract_pdf(pdf).unwrap();
    assert_eq!(result.text_pages.len(), 2);
    assert!(!result.signature_valid);
}

#[test]
fn page_tree_with_a_cycle_terminates() {
    let pdf = b"%PDF-1.4\n\
1 0 obj\n<< /Type /Catalog /Pages 2 0 R >>\nendobj\n\
2 0 obj\n<< /Type /Pages /Kids [3 0 R 2 0 R 4 0 R] >>\nendobj\n\
3 0 obj\n<< /Type /Pages /Kids [2 0 R 4 0 R] >>\nendobj\n\
4 0 obj\n<< /Type /Page /Parent 2 0 R >>\nendobj\n\
trailer\n<< /Root 1 0 R >>\n";
    let pages = extract_text(pdf.to_vec()).unwrap();
    assert_eq!(pages, vec![String::new()]);
}

#[test]
fn missing_trailer_and_xref_stream_is_a_parse_error() {
    let pdf = b"%PDF-1.4\n1 0 obj\n<< /Type /Catalog >>\nendobj\n";
    match extract_text(pdf.to_vec()) {
        Err(PdfError::ParseError(_)) => {}
        other => panic!("unexpected result: {:?}", other.map(|p| p.len())),
    }
}

#[test]
fn unresolvable_root_is_a_parse_error() {
    let pdf = b"%PDF-1.4\n1 0 obj\n<< /Type /Catalog >>\nendobj\ntrailer\n<< /Root 9 0 R >>\n";
    assert!(matches!(extract_text(pdf.to_vec()), Err(PdfError::ParseError(_))));
}

#[test]
fn malformed_object_header_is_a_parse_error() {
    let pdf = b"%PDF-1.4\nabc 0 obj\n<< >>\nendobj\ntrailer\n<< /Root 1 0 R >>\n";
    assert!(matches!(extract_text(pdf.to_vec()), Err(PdfError::ParseError(_))));
}

#[test]
fn failing_filter_on_page_content_is_a_decompression_error() {
    let pdf = b"%PDF-1.4\n\
1 0 obj\n<< /Type /Catalog /Pages 2 0 R >>\nendobj\n\
2 0 obj\n<< /Type /Pages /Kids [3 0 R] >>\nendobj\n\
3 0 obj\n<< /Type /Page /Contents 4 0 R >>\nendobj\n\
4 0 obj\n<< /Length 4 /Filter /ASCIIHexDecode >>\nstream\nzz>\n\nendstream\nendobj\n\
trailer\n<< /Root 1 0 R >>\n";
    assert!(matches!(extract_text(pdf.to_vec()), Err(PdfError::DecompressionError(_))));
}

#[test]
fn stream_without_length_ends_at_endstream() {
    let pdf = b"%PDF-1.4\n\
1 0 obj\n<< /Type /Catalog /Pages 2 0 R >>\nendobj\n\
2 0 obj\n<< /Type /Pages /Kids [3 0 R] >>\nendobj\n\
3 0 obj\n<< /Type /Page /Contents 4 0 R >>\nendobj\n\
4 0 obj\n<< /Length 9 0 R >>\nstream\nBT (Hi there) Tj ET\nendstream\nendobj\n\
trailer\n<< /Root 1 0 R >>\n";
    assert_eq!(extract_text(pdf.to_vec()).unwrap(), vec!["Hi there".to_string()]);
}

#[test]
fn content_streams_of_a_page_are_joined() {
    let pdf = b"%PDF-1.4\n\
1 0 obj\n<< /Type /Catalog /Pages 2 0 R >>\nendobj\n\
2 0 obj\n<< /Type /Pages /Kids [3 0 R 6 0 R] >>\nendobj\n\
3 0 obj\n<< /Type /Page /Contents [4 0 R 5 0 R] >>\nendobj\n\
4 0 obj\n<< /Length 14 >>\nstream\nBT (One) Tj ET\nendstream\nendobj\n\
5 0 obj\n<< /Length 14 >>\nstream\nBT (Two) Tj ET\nendstream\nendobj\n\
6 0 obj\n<< /Type /Page /Contents 5 0 R >>\nendobj\n\
trailer\n<< /Root 1 0 R >>\n";
    assert_eq!(
        extract_text(pdf.to_vec()).unwrap(),
        vec!["One Two".to_string(), "Two".to_string()]
    );
}

#[test]
fn object_stream_members_are_found() {
    let pdf = b"%PDF-1.5\n\
1 0 obj\n<< /Type /Catalog /Pages 2 0 R >>\nendobj\n\
7 0 obj\n<< /Type /ObjStm /N 2 /First 9 /Length 75 >>\nstream\n2 0 3 33 << /Type /Pages /Kids [3 0 R] >> << /Type /Page /Contents 4 0 R >>\nendstream\nendobj\n\
4 0 obj\n<< /Length 17 >>\nstream\nBT (Packed) Tj ET\nendstream\nendobj\n\
trailer\n<< /Root 1 0 R >>\n";
    assert_eq!(extract_text(pdf.to_vec()).unwrap(), vec!["Packed".to_string()]);
}

#[test]
fn form_xobject_text_is_added() {
    let pdf = b"%PDF-1.4\n\
1 0 obj\n<< /Type /Catalog /Pages 2 0 R >>\nendobj\n\
2 0 obj\n<< /Type /Pages /Kids [3 0 R] >>\nendobj\n\
3 0 obj\n<< /Type /Page /Resources << /XObject << /Fm1 5 0 R >> >> /Contents 4 0 R >>\nendobj\n\
4 0 obj\n<< /Length 24 >>\nstream\nBT (Page) Tj ET /Fm1 Do\nendstream\nendobj\n\
5 0 obj\n<< /Type /XObject /Subtype /Form /Length 15 >>\nstream\nBT (Form) Tj ET\nendstream\nendobj\n\
trailer\n<< /Root 1 0 R >>\n";
    assert_eq!(extract_text(pdf.to_vec()).unwrap(), vec!["Page Form".to_string()]);
}

#[test]
fn form_xobject_that_draws_itself_terminates() {
    let pdf = b"%PDF-1.4\n\
1 0 obj\n<< /Type /Catalog /Pages 2 0 R >>\nendobj\n\
2 0 obj\n<< /Type /Pages /Kids [3 0 R] >>\nendobj\n\
3 0 obj\n<< /Type /Page /Resources << /XObject << /Fm1 5 0 R >> >> /Contents 4 0 R >>\nendobj\n\
4 0 obj\n<< /Length 7 >>\nstream\n/Fm1 Do\nendstream\nendobj\n\
5 0 obj\n<< /Subtype /Form /Resources << /XObject << /Fm1 5 0 R >> >> /Length 22 >>\nstream\nBT (x) Tj ET /Fm1 Do\nendstream\nendobj\n\
trailer\n<< /Root 1 0 R >>\n";
    let pages = extract_text(pdf.to_vec()).unwrap();
    assert_eq!(pages.len(), 1);
    assert!(pages[0].starts_with("x x"));
}

#[test]
fn cross_reference_stream_stands_for_the_trailer() {
    let pdf = xref_stream_pdf();
    assert_eq!(extract_text(pdf.clone()).unwrap(), vec!["From xref".to_string()]);
    let (pages, objects) = parse_pdf(&pdf).unwrap();
    assert_eq!(pages.len(), 1);
    assert_eq!(objects.len(), 5);
    assert!(objects.first_xref_stream().is_some());
}

#[test]
fn comments_and_startxref_between_objects_are_passed() {
    let pdf = b"%PDF-1.4\n% a comment\n\
1 0 obj % catalog\n<< /Type /Catalog /Pages 2 0 R >>\nendobj\n\
startxref\n12\n%%EOF\n\
2 0 obj\n<< /Type /Pages /Kids [] >>\nendobj\n\
xref\ntrailer\n<< /Root 1 0 R >>\n";
    assert_eq!(extract_text(pdf.to_vec()).unwrap(), Vec::<String>::new());
}

#[test]
fn last_trailer_is_found_from_the_end() {
    let pdf = b"%PDF-1.4\n\
1 0 obj\n<< /Type /Catalog /Pages 2 0 R >>\nendobj\n\
2 0 obj\n<< /Type /Pages /Kids [3 0 R] >>\nendobj\n\
3 0 obj\n<< /Type /Page >>\nendobj\n\
xref\n0 1\ntrailer\n<< /Root 9 0 R >>\ntrailer\n<< /Root 1 0 R >>\nstartxref\n0\n";
    assert_eq!(extract_text(pdf.to_vec()).unwrap(), vec![String::new()]);
}

#[test]
fn inherited_resources_reach_the_page() {
    let pdf = b"%PDF-1.4\n\
1 0 obj\n<< /Type /Catalog /Pages 2 0 R >>\nendobj\n\
2 0 obj\n<< /Type /Pages /Kids [3 0 R] /Resources << /Font << /F1 5 0 R /F2 5 0 R >> >> >>\nendobj\n\
3 0 obj\n<< /Type /Page /Resources 7 0 R /Contents 4 0 R >>\nendobj\n\
4 0 obj\n<< /Length 44 >>\nstream\nBT /F1 9 Tf (\\200) Tj /F2 9 Tf (\\200) Tj ET\nendstream\nendobj\n\
5 0 obj\n<< /Subtype /Type1 /Encoding /WinAnsiEncoding >>\nendobj\n\
6 0 obj\n<< /Subtype /Type1 /Encoding /MacRomanEncoding >>\nendobj\n\
7 0 obj\n<< /ProcSet [/PDF] /Font << /F2 6 0 R >> >>\nendobj\n\
trailer\n<< /Root 1 0 R >>\n";
    let (pages, _) = parse_pdf(pdf).unwrap();
    assert_eq!(pages.len(), 1);
    assert!(pages[0].resources.get("ProcSet").is_some());
    assert!(pages[0].fonts.get("F1").is_none());
    assert_eq!(pages[0].fonts.get("F2").unwrap().encoding, "MacRomanEncoding");
    assert_eq!(extract_text(pdf.to_vec()).unwrap(), vec!["\u{c4}".to_string()]);
}
